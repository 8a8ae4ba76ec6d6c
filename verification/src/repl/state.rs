//! The state of the shell: the image, where the user stands, who the user
//! is and the aliases defined.
use vstd::prelude::*;

verus! {

/// The state of a shell session over a file system `F`.
pub struct State<F> {
    /// False once the user has asked to leave.
    pub run: bool,
    /// Whether the image may be changed.
    pub write: bool,
    /// The components of the current directory.
    pub cwd: Vec<String>,
    /// The image file.
    pub filename: String,
    pub fs: F,
    /// Whether the image has changes not saved.
    pub changes: bool,
    pub no_color: bool,
    /// The owner given to new files.
    pub uid: u32,
    /// The group given to new files.
    pub gid: u32,
    /// The permission bits cleared in new files.
    pub umask: u16,
    /// The aliases, name and command; no name occurs twice.
    pub aliases: Vec<(String, String)>,
}

/// The command of alias `name`, the first entry from `i` on that has that
/// name.
pub open spec fn alias_from(s: Seq<(String, String)>, name: Seq<char>, i: int) -> Option<Seq<char>>
    decreases s.len() - i,
{
    if i < 0 || i >= s.len() {
        None
    } else if s[i].0@ == name {
        Some(s[i].1@)
    } else {
        alias_from(s, name, i + 1)
    }
}

/// The command of alias `name`, if it is defined.
pub open spec fn alias_of(s: Seq<(String, String)>, name: Seq<char>) -> Option<Seq<char>> {
    alias_from(s, name, 0)
}

/// No alias name occurs twice.
pub open spec fn aliases_unique(s: Seq<(String, String)>) -> bool {
    forall|i: int, j: int| 0 <= i < j < s.len() ==> s[i].0@ != s[j].0@
}

proof fn lemma_alias_from_found(s: Seq<(String, String)>, name: Seq<char>, i: int, k: int)
    requires
        0 <= i <= k < s.len(),
        s[k].0@ == name,
        forall|j: int| i <= j < k ==> s[j].0@ != name,
    ensures
        alias_from(s, name, i) == Some(s[k].1@),
    decreases k - i,
{
    if i < k {
        lemma_alias_from_found(s, name, i + 1, k);
    }
}

proof fn lemma_alias_from_none(s: Seq<(String, String)>, name: Seq<char>, i: int)
    requires
        0 <= i <= s.len(),
        forall|j: int| i <= j < s.len() ==> s[j].0@ != name,
    ensures
        alias_from(s, name, i) is None,
    decreases s.len() - i,
{
    if i < s.len() {
        lemma_alias_from_none(s, name, i + 1);
    }
}

/// In a list without repeated names, the command of the name of entry
/// `k` is that entry's.
proof fn lemma_alias_at(s: Seq<(String, String)>, k: int)
    requires
        aliases_unique(s),
        0 <= k < s.len(),
    ensures
        alias_of(s, s[k].0@) == Some(s[k].1@),
{
    lemma_alias_from_found(s, s[k].0@, 0, k);
}

/// A name that no entry has has no command.
proof fn lemma_alias_absent(s: Seq<(String, String)>, n: Seq<char>)
    requires
        forall|j: int| 0 <= j < s.len() ==> s[j].0@ != n,
    ensures
        alias_of(s, n) is None,
{
    lemma_alias_from_none(s, n, 0);
}

/// Two lists without repeated names that differ only in entries named
/// `name` agree on every other name.
proof fn lemma_alias_others(s: Seq<(String, String)>, t: Seq<(String, String)>, name: Seq<char>, n: Seq<char>)
    requires
        aliases_unique(s),
        aliases_unique(t),
        n != name,
        forall|j: int| 0 <= j < s.len() && s[j].0@ != name ==> exists|i: int| 0 <= i < t.len() && t[i] == s[j],
        forall|i: int| 0 <= i < t.len() && t[i].0@ != name ==> exists|j: int| 0 <= j < s.len() && s[j] == t[i],
    ensures
        alias_of(s, n) == alias_of(t, n),
{
    if exists|j: int| 0 <= j < s.len() && s[j].0@ == n {
        let j = choose|j: int| 0 <= j < s.len() && s[j].0@ == n;
        let i = choose|i: int| 0 <= i < t.len() && t[i] == s[j];
        lemma_alias_at(s, j);
        lemma_alias_at(t, i);
    } else if exists|i: int| 0 <= i < t.len() && t[i].0@ == n {
        let i = choose|i: int| 0 <= i < t.len() && t[i].0@ == n;
        let j = choose|j: int| 0 <= j < s.len() && s[j] == t[i];
        assert(s[j].0@ == n);
    } else {
        lemma_alias_absent(s, n);
        lemma_alias_absent(t, n);
    }
}

impl<F> State<F> {
    /// A running session over `fs` with no changes, no aliases, standing at
    /// the root.
    pub fn new(filename: String, write: bool, no_color: bool, uid: u32, gid: u32, umask: u16, fs: F) -> (r: Self)
        ensures
            r.run && !r.changes,
            r.write == write && r.no_color == no_color,
            r.filename@ == filename@,
            r.fs == fs,
            r.uid == uid && r.gid == gid && r.umask == umask,
            r.cwd@.len() == 0,
            r.aliases@.len() == 0,
    {
        State {
            run: true,
            write,
            cwd: Vec::new(),
            filename,
            fs,
            changes: false,
            no_color,
            uid,
            gid,
            umask,
            aliases: Vec::new(),
        }
    }

    /// Mark the image as changed.
    pub fn changed(&mut self)
        ensures
            final(self).changes,
            final(self).run == old(self).run,
            final(self).fs == old(self).fs,
            final(self).umask == old(self).umask,
            final(self).aliases@ == old(self).aliases@,
    {
        self.changes = true;
    }

    /// Mark the image as saved.
    pub fn reset_changed(&mut self)
        ensures
            !final(self).changes,
            final(self).run == old(self).run,
            final(self).fs == old(self).fs,
            final(self).umask == old(self).umask,
            final(self).aliases@ == old(self).aliases@,
    {
        self.changes = false;
    }

    /// End the session.
    pub fn stop(&mut self)
        ensures
            !final(self).run,
            final(self).changes == old(self).changes,
            final(self).fs == old(self).fs,
            final(self).umask == old(self).umask,
            final(self).aliases@ == old(self).aliases@,
    {
        self.run = false;
    }

    pub fn is_running(&self) -> (r: bool)
        ensures
            r == self.run,
    {
        self.run
    }

    /// `mode` without the bits of the umask.
    pub fn apply_umask_to(&self, mode: u16) -> (r: u16)
        ensures
            r == mode & !self.umask,
    {
        mode & !self.umask
    }

    /// The mode of a new file: 0o666 without the umask's bits.
    pub fn file_umask(&self) -> (r: u16)
        ensures
            r == 0o666u16 & !self.umask,
    {
        self.apply_umask_to(0o666)
    }

    /// The mode of a new directory: 0o777 without the umask's bits.
    pub fn dir_umask(&self) -> (r: u16)
        ensures
            r == 0o777u16 & !self.umask,
    {
        self.apply_umask_to(0o777)
    }

    /// The command that alias `name` stands for.
    pub fn get_alias(&self, name: &String) -> (r: Option<String>)
        requires
            aliases_unique(self.aliases@),
        ensures
            match r {
                Some(c) => alias_of(self.aliases@, name@) == Some(c@),
                None => alias_of(self.aliases@, name@) is None,
            },
    {
        let mut k: usize = 0;
        while k < self.aliases.len()
            invariant
                k <= self.aliases@.len(),
                aliases_unique(self.aliases@),
                forall|j: int| 0 <= j < k ==> self.aliases@[j].0@ != name@,
            decreases self.aliases@.len() - k,
        {
            if self.aliases[k].0 == *name {
                proof {
                    lemma_alias_at(self.aliases@, k as int);
                }
                return Some(self.aliases[k].1.clone());
            }
            k += 1;
        }
        proof {
            lemma_alias_absent(self.aliases@, name@);
        }
        None
    }

    /// Define alias `name` as `command`, replacing its earlier command.
    pub fn set_alias(&mut self, name: String, command: String)
        requires
            aliases_unique(old(self).aliases@),
        ensures
            aliases_unique(final(self).aliases@),
            alias_of(final(self).aliases@, name@) == Some(command@),
            forall|n: Seq<char>| n != name@ ==> alias_of(final(self).aliases@, n) == alias_of(old(self).aliases@, n),
    {
        let ghost old_s = self.aliases@;
        let ghost nm = name@;
        let ghost cm = command@;
        let mut k: usize = 0;
        while k < self.aliases.len()
            invariant
                self.aliases@ == old_s,
                old_s == old(self).aliases@,
                aliases_unique(old_s),
                k <= old_s.len(),
                nm == name@,
                cm == command@,
                forall|j: int| 0 <= j < k ==> old_s[j].0@ != nm,
            decreases old_s.len() - k,
        {
            if self.aliases[k].0 == name {
                assert(old_s[k as int].0@ == nm);
                let entry = (name, command);
                assert(entry.0@ == nm && entry.1@ == cm);
                self.aliases.set(k, entry);
                proof {
                    let s = self.aliases@;
                    assert(s == old_s.update(k as int, s[k as int]));
                    assert(s[k as int].0@ == nm && s[k as int].1@ == cm);
                    assert forall|i: int, j: int| 0 <= i < j < s.len() implies s[i].0@ != s[j].0@ by {
                        assert(old_s[i].0@ != old_s[j].0@);
                    }
                    lemma_alias_at(s, k as int);
                    assert forall|n: Seq<char>| n != nm implies alias_of(s, n) == alias_of(old_s, n) by {
                        assert forall|j: int| 0 <= j < old_s.len() && old_s[j].0@ != nm implies exists|i: int|
                            0 <= i < s.len() && s[i] == old_s[j] by {
                            assert(s[j] == old_s[j]);
                        }
                        assert forall|i: int| 0 <= i < s.len() && s[i].0@ != nm implies exists|j: int|
                            0 <= j < old_s.len() && old_s[j] == s[i] by {
                            assert(s[i] == old_s[i]);
                        }
                        lemma_alias_others(old_s, s, nm, n);
                    }
                }
                return;
            }
            k += 1;
        }
        self.aliases.push((name, command));
        proof {
            let s = self.aliases@;
            assert(s.len() == old_s.len() + 1);
            assert(s[old_s.len() as int].0@ == nm && s[old_s.len() as int].1@ == cm);
            assert forall|i: int, j: int| 0 <= i < j < s.len() implies s[i].0@ != s[j].0@ by {
                if j < old_s.len() {
                    assert(s[i] == old_s[i] && s[j] == old_s[j]);
                } else {
                    assert(s[i] == old_s[i]);
                }
            }
            lemma_alias_at(s, old_s.len() as int);
            assert forall|n: Seq<char>| n != nm implies alias_of(s, n) == alias_of(old_s, n) by {
                assert forall|j: int| 0 <= j < old_s.len() && old_s[j].0@ != nm implies exists|i: int|
                    0 <= i < s.len() && s[i] == old_s[j] by {
                    assert(s[j] == old_s[j]);
                }
                assert forall|i: int| 0 <= i < s.len() && s[i].0@ != nm implies exists|j: int|
                    0 <= j < old_s.len() && old_s[j] == s[i] by {
                    assert(s[i] == old_s[i]);
                }
                lemma_alias_others(old_s, s, nm, n);
            }
        }
    }

    /// Remove alias `name`; whether it was defined.
    pub fn remove_alias(&mut self, name: &String) -> (r: bool)
        requires
            aliases_unique(old(self).aliases@),
        ensures
            r == (alias_of(old(self).aliases@, name@) is Some),
            aliases_unique(final(self).aliases@),
            alias_of(final(self).aliases@, name@) is None,
            forall|n: Seq<char>| n != name@ ==> alias_of(final(self).aliases@, n) == alias_of(old(self).aliases@, n),
    {
        let ghost old_s = self.aliases@;
        let mut k: usize = 0;
        while k < self.aliases.len()
            invariant
                self.aliases@ == old_s,
                old_s == old(self).aliases@,
                aliases_unique(old_s),
                k <= old_s.len(),
                forall|j: int| 0 <= j < k ==> old_s[j].0@ != name@,
            decreases old_s.len() - k,
        {
            if self.aliases[k].0 == *name {
                assert(old_s[k as int].0@ == name@);
                self.aliases.remove(k);
                proof {
                    lemma_alias_at(old_s, k as int);
                    let s = self.aliases@;
                    assert(s =~= old_s.remove(k as int));
                    assert forall|i: int, j: int| 0 <= i < j < s.len() implies s[i].0@ != s[j].0@ by {
                        let oi = if i < k { i } else { i + 1 };
                        let oj = if j < k { j } else { j + 1 };
                        assert(s[i] == old_s[oi] && s[j] == old_s[oj]);
                    }
                    assert forall|j: int| 0 <= j < s.len() implies s[j].0@ != name@ by {
                        let oj = if j < k { j } else { j + 1 };
                        assert(s[j] == old_s[oj]);
                    }
                    lemma_alias_absent(s, name@);
                    assert forall|n: Seq<char>| n != name@ implies alias_of(s, n) == alias_of(old_s, n) by {
                        assert forall|j: int| 0 <= j < old_s.len() && old_s[j].0@ != name@ implies exists|i: int|
                            0 <= i < s.len() && s[i] == old_s[j] by {
                            let sj = if j < k { j } else { j - 1 };
                            assert(s[sj] == old_s[j]);
                        }
                        assert forall|i: int| 0 <= i < s.len() && s[i].0@ != name@ implies exists|j: int|
                            0 <= j < old_s.len() && old_s[j] == s[i] by {
                            let oi = if i < k { i } else { i + 1 };
                            assert(s[i] == old_s[oi]);
                        }
                        lemma_alias_others(old_s, s, name@, n);
                    }
                }
                return true;
            }
            k += 1;
        }
        proof {
            lemma_alias_absent(old_s, name@);
        }
        false
    }
}

} // verus!
