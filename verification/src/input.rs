//! Input files: a list of user principal names, one per line.
use vstd::prelude::*;
use crate::report::{keep_where, lemma_keep_step, lemma_take_all};
use crate::text::{owned, starts_with_char, trim, trimmed};

verus! {

/// Index of the first `c` in `s`, or `s.len()` when there is none.
pub open spec fn first_index(s: Seq<char>, c: char) -> int
    decreases s.len(),
{
    if s.len() == 0 {
        0
    } else if s[0] == c {
        0
    } else {
        1 + first_index(s.drop_first(), c)
    }
}

/// A line without the carriage return of a `\r\n` ending.
pub open spec fn without_cr(line: Seq<char>) -> Seq<char> {
    if line.len() > 0 && line.last() == '\r' { line.drop_last() } else { line }
}

/// The lines of a text as `str::lines` yields them: split at `\n`, a `\r`
/// before the `\n` removed, no empty line after a final line ending.
pub open spec fn text_lines(s: Seq<char>) -> Seq<Seq<char>>
    decreases s.len(),
{
    if s.len() == 0 {
        Seq::empty()
    } else {
        let i = first_index(s, '\n');
        if i >= s.len() {
            seq![s]
        } else {
            proof {
                lemma_first_index_bounds(s, '\n');
            }
            seq![without_cr(s.take(i))] + text_lines(s.skip(i + 1))
        }
    }
}

pub proof fn lemma_first_index_bounds(s: Seq<char>, c: char)
    ensures
        0 <= first_index(s, c) <= s.len(),
        first_index(s, c) < s.len() ==> s[first_index(s, c)] == c,
        forall|k: int| 0 <= k < first_index(s, c) ==> s[k] != c,
    decreases s.len(),
{
    if s.len() > 0 && s[0] != c {
        lemma_first_index_bounds(s.drop_first(), c);
        assert forall|k: int| 0 <= k < first_index(s, c) implies s[k] != c by {
            if k > 0 {
                assert(s[k] == s.drop_first()[k - 1]);
            }
        }
    }
}

proof fn lemma_first_index_is(s: Seq<char>, c: char, j: int)
    requires
        0 <= j <= s.len(),
        j < s.len() ==> s[j] == c,
        forall|k: int| 0 <= k < j ==> s[k] != c,
    ensures
        first_index(s, c) == j,
{
    lemma_first_index_bounds(s, c);
    let f = first_index(s, c);
    if f < j {
        assert(s[f] == c);
    } else if j < f {
        assert(s[j] != c);
    }
}

/// The lines of `raw`.
pub fn lines_of(raw: &str) -> (r: Vec<String>)
    ensures
        r@.map_values(|l: String| l@) == text_lines(raw@),
{
    let n = raw.unicode_len();
    let mut out: Vec<String> = Vec::new();
    let mut start: usize = 0;
    assert(raw@.skip(0) =~= raw@);
    while start < n
        invariant
            n == raw@.len(),
            start <= n,
            text_lines(raw@) == out@.map_values(|l: String| l@) + text_lines(raw@.skip(start as int)),
        decreases n - start,
    {
        let ghost rest = raw@.skip(start as int);
        let mut j: usize = start;
        while j < n && raw.get_char(j) != '\n'
            invariant
                n == raw@.len(),
                start <= j <= n,
                forall|k: int| start <= k < j ==> raw@[k] != '\n',
            decreases n - j,
        {
            j = j + 1;
        }
        proof {
            lemma_first_index_is(rest, '\n', j - start);
        }
        let piece = raw.substring_char(start, j);
        let mut line = owned(piece);
        let len = line.unicode_len();
        if j < n && len > 0 && line.as_str().get_char(len - 1) == '\r' {
            line = owned(line.as_str().substring_char(0, len - 1));
        }
        let ghost before = out@;
        out.push(line);
        proof {
            assert(out@.map_values(|l: String| l@) =~= before.map_values(|l: String| l@).push(line@));
            if j < n {
                assert(rest.take(j - start) =~= piece@);
                assert(rest.skip(j - start + 1) =~= raw@.skip(j + 1));
                assert(line@ == without_cr(rest.take(j - start)));
                assert(text_lines(rest) == seq![line@] + text_lines(raw@.skip(j + 1)));
            } else {
                assert(rest =~= piece@);
                assert(raw@.skip(n as int) =~= Seq::<char>::empty());
                assert(text_lines(rest) == seq![line@]);
            }
        }
        start = if j < n { j + 1 } else { n };
        proof {
            if j >= n {
                assert(text_lines(raw@.skip(n as int)) =~= Seq::<Seq<char>>::empty()) by {
                    assert(raw@.skip(n as int) =~= Seq::<char>::empty());
                }
            }
            assert(text_lines(raw@) =~= out@.map_values(|l: String| l@) + text_lines(raw@.skip(start as int)));
        }
    }
    proof {
        assert(raw@.skip(n as int) =~= Seq::<char>::empty());
        assert(out@.map_values(|l: String| l@) + Seq::<Seq<char>>::empty() =~= out@.map_values(|l: String| l@));
    }
    out
}

/// A line names a user: not blank and not a `#` comment.
pub open spec fn is_entry(line: Seq<char>) -> bool {
    line.len() > 0 && line[0] != '#'
}

/// The user principal names listed in a text: each line trimmed, blank lines
/// and lines starting with `#` skipped.
pub fn parse_upn_list(raw: &str) -> (r: Vec<String>)
    ensures
        r@.map_values(|l: String| l@) == keep_where(text_lines(raw@).map_values(|l: Seq<char>| trimmed(l)), |l: Seq<char>| is_entry(l)),
{
    let lines = lines_of(raw);
    let ghost trimmed_lines = text_lines(raw@).map_values(|l: Seq<char>| trimmed(l));
    let ghost p = |l: Seq<char>| is_entry(l);
    let n = lines.len();
    let mut out: Vec<String> = Vec::new();
    let mut i: usize = 0;
    while i < n
        invariant
            n == lines@.len(),
            lines@.map_values(|l: String| l@) == text_lines(raw@),
            trimmed_lines == text_lines(raw@).map_values(|l: Seq<char>| trimmed(l)),
            p == (|l: Seq<char>| is_entry(l)),
            i <= n,
            out@.map_values(|l: String| l@) == keep_where(trimmed_lines.take(i as int), p),
        decreases n - i,
    {
        proof {
            lemma_keep_step(trimmed_lines, p, i as int);
            assert(trimmed_lines[i as int] == trimmed(lines@[i as int]@));
        }
        let t = trim(lines[i].as_str());
        if t.unicode_len() > 0 && !starts_with_char(t.as_str(), '#') {
            let ghost before = out@;
            out.push(t);
            proof {
                assert(out@.map_values(|l: String| l@) =~= before.map_values(|l: String| l@).push(t@));
            }
        }
        i = i + 1;
    }
    proof {
        lemma_take_all(trimmed_lines);
    }
    out
}

} // verus!
