//! Reading commands from a source file: which lines are run, which are
//! skipped and where reading stops.
use crate::repl::user::{all_white, is_space_char, is_white_space, law_trim, trim_end_from, trim_start_from};
use vstd::prelude::*;
use vstd::string::{StrSliceExecFns, StringExecFns};

verus! {

/// What a line of a source file asks for.
#[derive(Debug, PartialEq, Eq)]
pub enum SourceLine {
    /// An empty line or a comment (starting with `#` or `//`).
    Skip,
    /// `break`: stop reading the file.
    Break,
    /// A command to run, white space trimmed off.
    Run(String),
}

/// `s` without leading and trailing white space.
pub open spec fn trimmed(s: Seq<char>) -> Seq<char> {
    let a = trim_start_from(s, 0);
    let b = trim_end_from(s, a, s.len() as int);
    s.subrange(a, b)
}

/// What the line `s` of a source file asks for.
pub open spec fn spec_classify(s: Seq<char>) -> Option<Option<Seq<char>>> {
    let t = trimmed(s);
    if t.len() == 0 || t[0] == '#' || (t.len() >= 2 && t[0] == '/' && t[1] == '/') {
        None
    } else if t == seq!['b', 'r', 'e', 'a', 'k'] {
        Some(None)
    } else {
        Some(Some(t))
    }
}

/// The view of a classified line: `None` to skip, `Some(None)` to stop,
/// `Some(Some(command))` to run.
pub open spec fn line_view(l: SourceLine) -> Option<Option<Seq<char>>> {
    match l {
        SourceLine::Skip => None,
        SourceLine::Break => Some(None),
        SourceLine::Run(c) => Some(Some(c@)),
    }
}

/// What the line `line` of a source file asks for: lines empty after
/// trimming white space and comments (`#` or `//` first) are skipped,
/// `break` stops reading, anything else is a command.
pub fn classify_line(line: &str) -> (r: SourceLine)
    ensures
        line_view(r) == spec_classify(line@),
{
    let n = line.unicode_len();
    let mut a: usize = 0;
    while a < n && is_space_char(line.get_char(a))
        invariant
            n == line@.len(),
            a <= n,
            trim_start_from(line@, 0) == trim_start_from(line@, a as int),
        decreases n - a,
    {
        a += 1;
    }
    let mut b: usize = n;
    while b > a && is_space_char(line.get_char(b - 1))
        invariant
            n == line@.len(),
            a <= b <= n,
            a == trim_start_from(line@, 0),
            trim_end_from(line@, a as int, n as int) == trim_end_from(line@, a as int, b as int),
        decreases b - a,
    {
        b -= 1;
    }
    let t = line.substring_char(a, b);
    assert(t@ == trimmed(line@));
    let len = b - a;
    if len == 0 {
        return SourceLine::Skip;
    }
    let c0 = t.get_char(0);
    if c0 == '#' {
        return SourceLine::Skip;
    }
    if len >= 2 && c0 == '/' && t.get_char(1) == '/' {
        return SourceLine::Skip;
    }
    if len == 5 && c0 == 'b' && t.get_char(1) == 'r' && t.get_char(2) == 'e' && t.get_char(3) == 'a' && t.get_char(4)
        == 'k' {
        assert(t@ =~= seq!['b', 'r', 'e', 'a', 'k']);
        return SourceLine::Break;
    }
    proof {
        if t@ == seq!['b', 'r', 'e', 'a', 'k'] {
            assert(t@[1] == 'r' && t@[2] == 'e' && t@[3] == 'a' && t@[4] == 'k');
        }
    }
    SourceLine::Run(String::from_str(t))
}


/// A source file line, white space around it aside: one starting with `#`
/// or `//` is skipped, `break` stops reading, and anything else is run as
/// the command it reads, white space trimmed off; a line of white space
/// only is skipped.
pub proof fn law_source_line(w1: Seq<char>, t: Seq<char>, w2: Seq<char>)
    requires
        all_white(w1),
        all_white(w2),
    ensures
        t.len() == 0 ==> spec_classify(w1 + w2) == None::<Option<Seq<char>>>,
        (t.len() > 0 && !is_white_space(t[0]) && !is_white_space(t.last())) ==> spec_classify(w1 + t + w2) == (if t[0] == '#'
            || (t.len() >= 2 && t[0] == '/' && t[1] == '/') {
            None
        } else if t == seq!['b', 'r', 'e', 'a', 'k'] {
            Some(None)
        } else {
            Some(Some(t))
        }),
{
    if t.len() > 0 && !is_white_space(t[0]) && !is_white_space(t.last()) {
        law_trim(w1, t, w2);
    }
    let s = w1 + w2;
    lemma_all_white_trim(s, 0);
}

proof fn lemma_all_white_trim(s: Seq<char>, i: int)
    requires
        0 <= i <= s.len(),
    ensures
        (forall|k: int| i <= k < s.len() ==> is_white_space(#[trigger] s[k])) ==> trim_start_from(s, i) == s.len(),
    decreases s.len() - i,
{
    if i < s.len() {
        lemma_all_white_trim(s, i + 1);
    }
}

} // verus!
