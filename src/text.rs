//! Splitting a station's label into lines.
use vstd::prelude::*;
use vstd::std_specs::iter::IteratorSpec;
use vstd::string::StrSliceExecFns;

verus! {

/// A line without the carriage return that ends it, if any.
pub open spec fn strip_cr(l: Seq<char>) -> Seq<char> {
    if l.len() > 0 && l.last() == '\r' {
        l.drop_last()
    } else {
        l
    }
}

/// The lines of `s` from the line that starts at `start`, scanning from `i`.
/// A line ends at `\n` (or `\r\n`); a last line without line break counts
/// unless it is empty.
pub open spec fn lines_from(s: Seq<char>, start: int, i: int) -> Seq<Seq<char>>
    decreases s.len() - i,
{
    if i >= s.len() {
        if start < s.len() {
            seq![s.subrange(start, s.len() as int)]
        } else {
            seq![]
        }
    } else if s[i] == '\n' {
        seq![strip_cr(s.subrange(start, i))] + lines_from(s, i + 1, i + 1)
    } else {
        lines_from(s, start, i + 1)
    }
}

/// The lines of a label; an empty label is one empty line.
pub open spec fn label_lines(s: Seq<char>) -> Seq<Seq<char>> {
    if s.len() == 0 {
        seq![seq![]]
    } else {
        lines_from(s, 0, 0)
    }
}

/// Every label, even an empty one, has at least one line.
pub proof fn lemma_label_lines_nonempty(s: Seq<char>)
    ensures
        label_lines(s).len() > 0,
{
    if s.len() > 0 {
        lemma_lines_from_nonempty(s, 0, 0);
    }
}

proof fn lemma_lines_from_nonempty(s: Seq<char>, start: int, i: int)
    requires
        0 <= start <= i < s.len(),
    ensures
        lines_from(s, start, i).len() > 0,
    decreases s.len() - i,
{
    if s[i] != '\n' {
        if i + 1 < s.len() {
            lemma_lines_from_nonempty(s, start, i + 1);
        } else {
            assert(lines_from(s, start, i + 1).len() == 1);
        }
    }
}

/// The lines of `s`, each as a slice of it.
pub fn split_lines(s: &str) -> (r: Vec<&str>)
    ensures
        r.len() == label_lines(s@).len(),
        forall|j: int| 0 <= j < r.len() ==> #[trigger] r[j]@ == label_lines(s@)[j],
{
    let n = s.unicode_len();
    let mut r: Vec<&str> = Vec::new();
    if n == 0 {
        r.push("");
        proof {
            reveal_strlit("");
        }
        return r;
    }
    let ghost all = lines_from(s@, 0, 0);
    let mut chars = s.chars();
    let mut start: usize = 0;
    let mut i: usize = 0;
    let mut after_cr = false;
    while i < n
        invariant
            n == s@.len(),
            start <= i <= n,
            chars.remaining() == s@.skip(i as int),
            after_cr == (i > start && s@[i - 1] == '\r'),
            r.len() + lines_from(s@, start as int, i as int).len() == all.len(),
            forall|j: int| 0 <= j < r.len() ==> #[trigger] r[j]@ == all[j],
            forall|j: int|
                0 <= j < lines_from(s@, start as int, i as int).len() ==> #[trigger] lines_from(
                    s@,
                    start as int,
                    i as int,
                )[j] == all[r.len() + j],
        decreases n - i,
    {
        proof {
            assert(s@.skip(i as int)[0] == s@[i as int]);
            assert(s@.skip(i as int).drop_first() =~= s@.skip(i + 1));
        }
        let c = chars.next().unwrap();
        if c == '\n' {
            let end = if after_cr {
                i - 1
            } else {
                i
            };
            let line = s.substring_char(start, end);
            proof {
                let rest = lines_from(s@, start as int, i as int);
                assert(line@ =~= strip_cr(s@.subrange(start as int, i as int)));
                assert(rest[0] == all[r.len() as int]);
                let next = lines_from(s@, i + 1, i + 1);
                assert forall|j: int| 0 <= j < next.len() implies #[trigger] next[j] == all[r.len()
                    + 1 + j] by {
                    assert(next[j] == rest[1 + j]);
                }
            }
            r.push(line);
            start = i + 1;
            after_cr = false;
        } else {
            after_cr = c == '\r';
        }
        i = i + 1;
    }
    if start < n {
        let line = s.substring_char(start, n);
        proof {
            let rest = lines_from(s@, start as int, i as int);
            assert(rest[0] == all[r.len() as int]);
        }
        r.push(line);
    }
    r
}

} // verus!
