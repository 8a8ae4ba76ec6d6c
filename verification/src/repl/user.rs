//! Confirmation prompts: the question asked and how an answer is read.
use vstd::prelude::*;
use vstd::string::{StrSliceExecFns, StringExecFns};

verus! {

/// Whether `c` is white space, as `char::is_whitespace` documents it: the
/// Unicode `White_Space` characters.
pub open spec fn is_white_space(c: char) -> bool {
    let u = c as u32;
    ||| 0x09 <= u <= 0x0D
    ||| u == 0x20
    ||| u == 0x85
    ||| u == 0xA0
    ||| u == 0x1680
    ||| 0x2000 <= u <= 0x200A
    ||| u == 0x2028
    ||| u == 0x2029
    ||| u == 0x202F
    ||| u == 0x205F
    ||| u == 0x3000
}

/// `c` in lower case, for ASCII letters.
pub open spec fn ascii_lower(c: char) -> char {
    if 'A' <= c <= 'Z' {
        ((c as u32) + 32) as char
    } else {
        c
    }
}

/// The index of the first character of `s` at or after `i` that is not
/// white space.
pub open spec fn trim_start_from(s: Seq<char>, i: int) -> int
    decreases s.len() - i,
{
    if i >= s.len() || !is_white_space(s[i]) {
        i
    } else {
        trim_start_from(s, i + 1)
    }
}

/// The index past the last character of `s[..j]` that is not white space,
/// not below `lo`.
pub open spec fn trim_end_from(s: Seq<char>, lo: int, j: int) -> int
    decreases j - lo,
{
    if j <= lo || !is_white_space(s[j - 1]) {
        j
    } else {
        trim_end_from(s, lo, j - 1)
    }
}

/// `s` without leading and trailing white space, in lower case.
pub open spec fn normalized_answer(s: Seq<char>) -> Seq<char> {
    let a = trim_start_from(s, 0);
    let b = trim_end_from(s, a, s.len() as int);
    s.subrange(a, b).map_values(|c: char| ascii_lower(c))
}

/// Whether an answer to a prompt confirms: it reads "y" or "yes" in any
/// case, with any white space around it. Anything else is a no.
pub fn is_yes(line: &str) -> (r: bool)
    ensures
        r == (normalized_answer(line@) == seq!['y'] || normalized_answer(line@) == seq!['y', 'e', 's']),
{
    let n = line.unicode_len();
    let mut a: usize = 0;
    while a < n && is_space_char(line.get_char(a))
        invariant
            n == line@.len(),
            a <= n,
            trim_start_from(line@, 0) == trim_start_from(line@, a as int),
        decreases n - a,
    {
        a += 1;
    }
    let mut b: usize = n;
    while b > a && is_space_char(line.get_char(b - 1))
        invariant
            n == line@.len(),
            a <= b <= n,
            a == trim_start_from(line@, 0),
            trim_end_from(line@, a as int, n as int) == trim_end_from(line@, a as int, b as int),
        decreases b - a,
    {
        b -= 1;
    }
    let ghost word = normalized_answer(line@);
    assert(word.len() == b - a);
    if b - a == 1 {
        let c0 = lower_char(line.get_char(a));
        assert(word[0] == c0);
        if c0 == 'y' {
            assert(word =~= seq!['y']);
        }
        c0 == 'y'
    } else if b - a == 3 {
        let c0 = lower_char(line.get_char(a));
        let c1 = lower_char(line.get_char(a + 1));
        let c2 = lower_char(line.get_char(a + 2));
        assert(word[0] == c0 && word[1] == c1 && word[2] == c2);
        if c0 == 'y' && c1 == 'e' && c2 == 's' {
            assert(word =~= seq!['y', 'e', 's']);
        }
        c0 == 'y' && c1 == 'e' && c2 == 's'
    } else {
        assert(word.len() != 1 && word.len() != 3);
        false
    }
}

/// Whether `c` is white space.
pub fn is_space_char(c: char) -> (r: bool)
    ensures
        r == is_white_space(c),
{
    let u = c as u32;
    (0x09 <= u && u <= 0x0D) || u == 0x20 || u == 0x85 || u == 0xA0 || u == 0x1680 || (0x2000 <= u && u <= 0x200A)
        || u == 0x2028 || u == 0x2029 || u == 0x202F || u == 0x205F || u == 0x3000
}

fn lower_char(c: char) -> (r: char)
    ensures
        r == ascii_lower(c),
{
    if 'A' <= c && c <= 'Z' {
        ((c as u32) + 32) as u8 as char
    } else {
        c
    }
}

/// The question a prompt asks: `<prompt> '<path>'? [y/N] `.
pub fn prompt_text(prompt: &str, path: &str) -> (r: String)
    ensures
        r@ == prompt@ + " '"@ + path@ + "'? [y/N] "@,
{
    let mut s = String::from_str(prompt);
    s.append(" '");
    s.append(path);
    s.append("'? [y/N] ");
    s
}

/// Whether `s` ends with a `"`.
pub open spec fn ends_quote(s: Seq<char>) -> bool {
    s.len() > 0 && s.last() == '"'
}

/// The first index from `j` on whose word ends with a `"`, or the number
/// of words.
pub open spec fn closing(args: Seq<Seq<char>>, j: int) -> int
    decreases args.len() - j,
{
    if j < 0 || j >= args.len() {
        args.len() as int
    } else if ends_quote(args[j]) {
        j
    } else {
        closing(args, j + 1)
    }
}

/// `closing` lies between its start and the number of words, at a word
/// that ends with a quote where it lies before the end.
pub proof fn lemma_closing(args: Seq<Seq<char>>, j: int)
    requires
        0 <= j,
    ensures
        j <= closing(args, j) <= args.len() || j > args.len(),
        closing(args, j) < args.len() ==> ends_quote(args[closing(args, j)]),
    decreases args.len() - j,
{
    if j < args.len() && !ends_quote(args[j]) {
        lemma_closing(args, j + 1);
    }
}

/// A space before each of the words `args[a..=b]`, all joined.
pub open spec fn spaced(args: Seq<Seq<char>>, a: int, b: int) -> Seq<char>
    decreases b - a + 1,
{
    if a > b {
        Seq::empty()
    } else {
        spaced(args, a, b - 1) + seq![' '] + args[b]
    }
}

/// The arguments that the words `args[i..]` of a `shell` command give: a
/// word that starts with `"` runs, with single spaces, to the first word
/// that ends with `"`, the quotes left out; a word whose quote is never
/// closed stands as it is, as does every other word.
pub open spec fn quoted_from(args: Seq<Seq<char>>, i: int) -> Seq<Seq<char>>
    decreases args.len() - i,
{
    if i < 0 || i >= args.len() {
        Seq::empty()
    } else {
        let a = args[i];
        if a.len() > 0 && a[0] == '"' {
            if a.len() > 1 && a.last() == '"' {
                seq![a.subrange(1, a.len() - 1)] + quoted_from(args, i + 1)
            } else {
                let j = closing(args, i + 1);
                proof {
                    lemma_closing(args, i + 1);
                }
                if j < args.len() {
                    seq![(a.skip(1) + spaced(args, i + 1, j)).drop_last()] + quoted_from(args, j + 1)
                } else {
                    seq![a] + quoted_from(args, i + 1)
                }
            }
        } else {
            seq![a] + quoted_from(args, i + 1)
        }
    }
}

/// The views of a sequence of string slices.
pub open spec fn words_view(v: Seq<&str>) -> Seq<Seq<char>> {
    v.map_values(|x: &str| x@)
}

/// Whether `s` ends with a `"`.
fn ends_with_quote(s: &str) -> (r: bool)
    ensures
        r == ends_quote(s@),
{
    let n = s.unicode_len();
    n > 0 && s.get_char(n - 1) == '"'
}

/// The arguments that the words `args` of a `shell` command give (see
/// `quoted_from`).
pub fn join_quoted(args: &[&str]) -> (r: Vec<String>)
    ensures
        r@.map_values(|x: String| x@) == quoted_from(words_view(args@), 0),
{
    let ghost w = words_view(args@);
    let mut out: Vec<String> = Vec::new();
    let mut i: usize = 0;
    assert(out@.map_values(|x: String| x@) + quoted_from(w, 0) =~= quoted_from(w, 0));
    while i < args.len()
        invariant
            i <= args@.len() == w.len(),
            w == words_view(args@),
            out@.map_values(|x: String| x@) + quoted_from(w, i as int) == quoted_from(w, 0),
        decreases args@.len() - i,
    {
        let a = args[i];
        let n = a.unicode_len();
        let ghost before = out@.map_values(|x: String| x@);
        assert(w[i as int] == a@);
        if n > 0 && a.get_char(0) == '"' {
            if n > 1 && a.get_char(n - 1) == '"' {
                let piece = a.substring_char(1, n - 1).to_owned();
                out.push(piece);
                proof {
                    assert(out@.map_values(|x: String| x@) =~= before.push(a@.subrange(1, n - 1)));
                    assert(before + quoted_from(w, i as int) =~= out@.map_values(|x: String| x@) + quoted_from(w, i + 1));
                }
                i += 1;
                continue;
            }
            let mut combined = a.substring_char(1, n).to_owned();
            let mut j = i + 1;
            let mut closed = false;
            assert(spaced(w, i + 1, i as int) =~= Seq::<char>::empty());
            proof {
                lemma_closing(w, i + 1);
            }
            while j < args.len() && !closed
                invariant
                    i < j <= args@.len() == w.len(),
                    w == words_view(args@),
                    combined@ == a@.skip(1) + spaced(w, i + 1, j - 1),
                    closed ==> j - 1 > i && closing(w, i + 1) == j - 1,
                    !closed ==> closing(w, i + 1) == closing(w, j as int),
                    !closed ==> j == i + 1 || !ends_quote(w[j - 1]),
                decreases args@.len() - j,
            {
                crate::bytes::push_char(&mut combined, ' ');
                combined.append(args[j]);
                assert(combined@ =~= a@.skip(1) + spaced(w, i + 1, j as int));
                closed = ends_with_quote(args[j]);
                j += 1;
            }
            if closed {
                let ghost full = combined@;
                let m = combined.as_str().unicode_len();
                assert(m > 0);
                let trimmed = combined.as_str().substring_char(0, m - 1).to_owned();
                out.push(trimmed);
                proof {
                    assert(trimmed@ =~= full.drop_last());
                    assert(out@.map_values(|x: String| x@) =~= before.push(full.drop_last()));
                    assert(before + quoted_from(w, i as int) =~= out@.map_values(|x: String| x@) + quoted_from(w, j as int));
                }
                i = j;
                continue;
            }
            proof {
                lemma_closing(w, j as int);
            }
        }
        out.push(a.to_owned());
        proof {
            assert(out@.map_values(|x: String| x@) =~= before.push(a@));
            assert(before + quoted_from(w, i as int) =~= out@.map_values(|x: String| x@) + quoted_from(w, i + 1));
        }
        i += 1;
    }
    out
}


/// Whether every character of `w` is white space.
pub open spec fn all_white(w: Seq<char>) -> bool {
    forall|i: int| 0 <= i < w.len() ==> is_white_space(#[trigger] w[i])
}

proof fn lemma_trim_start(s: Seq<char>, e: int, i: int)
    requires
        0 <= i <= e < s.len(),
        forall|k: int| 0 <= k < e ==> is_white_space(#[trigger] s[k]),
        !is_white_space(s[e]),
    ensures
        trim_start_from(s, i) == e,
    decreases e - i,
{
    if i < e {
        lemma_trim_start(s, e, i + 1);
    }
}

proof fn lemma_trim_end(s: Seq<char>, lo: int, e: int, j: int)
    requires
        lo < e <= j <= s.len(),
        forall|k: int| e <= k < j ==> is_white_space(#[trigger] s[k]),
        !is_white_space(s[e - 1]),
    ensures
        trim_end_from(s, lo, j) == e,
    decreases j - lo,
{
    if j > e {
        lemma_trim_end(s, lo, e, j - 1);
    }
}

/// Trimming: white space `w1` before and `w2` after a text `t` that
/// neither starts nor ends with white space is what trimming takes off.
pub proof fn law_trim(w1: Seq<char>, t: Seq<char>, w2: Seq<char>)
    requires
        all_white(w1),
        all_white(w2),
        t.len() > 0,
        !is_white_space(t[0]),
        !is_white_space(t.last()),
    ensures
        ({
            let s = w1 + t + w2;
            let a = trim_start_from(s, 0);
            s.subrange(a, trim_end_from(s, a, s.len() as int)) == t
        }),
{
    let s = w1 + t + w2;
    let e1 = w1.len() as int;
    let e2 = e1 + t.len();
    assert forall|k: int| 0 <= k < e1 implies is_white_space(#[trigger] s[k]) by {
        assert(s[k] == w1[k]);
    }
    assert(s[e1] == t[0]);
    lemma_trim_start(s, e1, 0);
    assert forall|k: int| e2 <= k < s.len() implies is_white_space(#[trigger] s[k]) by {
        assert(s[k] == w2[k - e2]);
    }
    assert(s[e2 - 1] == t.last());
    lemma_trim_end(s, e1, e2, s.len() as int);
    assert(s.subrange(e1, e2) =~= t);
}

/// Whether `c` is the letter `l` (lower case) in either case.
pub open spec fn either_case(c: char, l: char) -> bool {
    c == l || c as int == l as int - 32
}

/// An answer confirms exactly when, white space around it aside, it is
/// `y` or `yes` in any mix of upper and lower case.
pub proof fn law_yes_answer(w1: Seq<char>, t: Seq<char>, w2: Seq<char>)
    requires
        all_white(w1),
        all_white(w2),
        t.len() > 0,
        !is_white_space(t[0]),
        !is_white_space(t.last()),
    ensures
        (normalized_answer(w1 + t + w2) == seq!['y'] || normalized_answer(w1 + t + w2) == seq!['y', 'e', 's']) == ((t.len()
            == 1 && either_case(t[0], 'y')) || (t.len() == 3 && either_case(t[0], 'y') && either_case(t[1], 'e')
            && either_case(t[2], 's'))),
{
    law_trim(w1, t, w2);
    let u = t.map_values(|c: char| ascii_lower(c));
    assert(normalized_answer(w1 + t + w2) == u);
    assert forall|i: int| 0 <= i < t.len() implies (#[trigger] u[i] == 'y') == either_case(t[i], 'y') && (u[i] == 'e')
        == either_case(t[i], 'e') && (u[i] == 's') == either_case(t[i], 's') by {
        assert(u[i] == ascii_lower(t[i]));
    }
    if t.len() == 1 && u[0] == 'y' {
        assert(u =~= seq!['y']);
    }
    if t.len() == 3 && u[0] == 'y' && u[1] == 'e' && u[2] == 's' {
        assert(u =~= seq!['y', 'e', 's']);
    }
    if u == seq!['y'] {
        assert(u[0] == 'y');
    }
    if u == seq!['y', 'e', 's'] {
        assert(u[0] == 'y' && u[1] == 'e' && u[2] == 's');
    }
}

} // verus!
