//! Splitting text into lines and counting its words, as `str::lines` and
//! `str::split_whitespace` do.
use vstd::prelude::*;

verus! {

/// Index of the first line feed in `s`, or its length when there is none.
pub open spec fn newline_pos(s: Seq<char>) -> nat
    decreases s.len(),
{
    if s.len() == 0 {
        0
    } else if s[0] == '\n' {
        0
    } else {
        1 + newline_pos(s.drop_first())
    }
}

/// `line` without the carriage return before its line feed, if it has one.
pub open spec fn strip_cr(line: Seq<char>) -> Seq<char> {
    if line.len() > 0 && line.last() == '\r' { line.drop_last() } else { line }
}

/// The lines of `s`: the pieces between line feeds, a carriage return right before a line feed
/// belonging to the line ending; a final line ending adds no empty line, and the empty text has
/// no lines.
pub open spec fn lines_of(s: Seq<char>) -> Seq<Seq<char>>
    decreases s.len(),
{
    if s.len() == 0 {
        seq![]
    } else {
        let i = newline_pos(s);
        if i >= s.len() {
            seq![s]
        } else {
            seq![strip_cr(s.take(i as int))] + lines_of(s.skip(i as int + 1))
        }
    }
}

/// The lines joined into one text, a line feed between each two of them.
pub open spec fn joined(lines: Seq<Seq<char>>) -> Seq<char>
    decreases lines.len(),
{
    if lines.len() == 0 {
        seq![]
    } else if lines.len() == 1 {
        lines[0]
    } else {
        lines[0] + seq!['\n'] + joined(lines.drop_first())
    }
}

/// The first line feed of `s` is at `newline_pos(s)`, and there is none before it.
proof fn lemma_newline_pos(s: Seq<char>)
    ensures
        newline_pos(s) <= s.len(),
        newline_pos(s) < s.len() ==> s[newline_pos(s) as int] == '\n',
        forall|j: int| 0 <= j < newline_pos(s) ==> s[j] != '\n',
    decreases s.len(),
{
    if s.len() > 0 && s[0] != '\n' {
        lemma_newline_pos(s.drop_first());
        assert forall|j: int| 0 <= j < newline_pos(s) implies s[j] != '\n' by {
            if j > 0 {
                assert(s[j] == s.drop_first()[j - 1]);
            }
        }
    }
}

/// Joining one more line adds a line feed and the line.
proof fn lemma_joined_push(lines: Seq<Seq<char>>, x: Seq<char>)
    requires
        lines.len() > 0,
    ensures
        joined(lines.push(x)) == joined(lines) + seq!['\n'] + x,
    decreases lines.len(),
{
    let pushed = lines.push(x);
    if lines.len() == 1 {
        assert(pushed.drop_first() =~= seq![x]);
        assert(joined(seq![x]) == x);
        assert(joined(pushed) == lines[0] + seq!['\n'] + x);
    } else {
        lemma_joined_push(lines.drop_first(), x);
        assert(pushed.drop_first() =~= lines.drop_first().push(x));
        assert(joined(pushed) == lines[0] + seq!['\n'] + joined(lines.drop_first().push(x)));
        assert(joined(pushed) =~= joined(lines) + seq!['\n'] + x);
    }
}

/// Without carriage returns, the lines of a non-empty text joined by line feeds give back the
/// text, but for its final line feed.
proof fn lemma_lines_joined(s: Seq<char>)
    requires
        s.len() > 0,
        !s.contains('\r'),
    ensures
        lines_of(s).len() > 0,
        joined(lines_of(s)) + (if s.last() == '\n' { seq!['\n'] } else { seq![] }) == s,
    decreases s.len(),
{
    let i = newline_pos(s);
    lemma_newline_pos(s);
    if i >= s.len() {
        if s.last() == '\n' {
            assert(s[s.len() - 1] == '\n');
        }
        assert(s + seq![] =~= s);
    } else {
        let head = s.take(i as int);
        let rest = s.skip(i as int + 1);
        if head.len() > 0 && head.last() == '\r' {
            assert(s.contains(s[i - 1]));
        }
        assert(strip_cr(head) == head);
        if rest.len() == 0 {
            assert(lines_of(rest) =~= Seq::<Seq<char>>::empty());
            assert(lines_of(s) =~= seq![head]);
            assert(head + seq!['\n'] =~= s);
        } else {
            assert forall|j: int| 0 <= j < rest.len() implies rest[j] != '\r' by {
                assert(rest[j] == s[i + 1 + j]);
                assert(s.contains(s[i + 1 + j]));
            }
            assert(!rest.contains('\r'));
            lemma_lines_joined(rest);
            let ls = lines_of(rest);
            assert(lines_of(s) == seq![head] + ls);
            assert((seq![head] + ls).drop_first() =~= ls);
            assert(rest.last() == s.last());
            let tail = if s.last() == '\n' { seq!['\n'] } else { Seq::<char>::empty() };
            assert(joined(lines_of(s)) == head + seq!['\n'] + joined(ls));
            assert(head + seq!['\n'] + rest =~= s);
            assert(joined(lines_of(s)) + tail =~= head + seq!['\n'] + (joined(ls) + tail));
        }
    }
}

/// Splitting a text without carriage returns into its lines loses nothing: joined by line
/// feeds, the lines give back the text (a final line feed ends the last line).
pub proof fn lemma_lines_of_join(s: Seq<char>)
    requires
        !s.contains('\r'),
    ensures
        joined(lines_of(s)) + (if s.len() > 0 && s.last() == '\n' { seq!['\n'] } else { seq![] }) == s,
{
    if s.len() == 0 {
        assert(joined(lines_of(s)) + seq![] =~= s);
    } else {
        lemma_lines_joined(s);
    }
}

/// A non-empty text has at least one line.
pub proof fn lemma_lines_nonempty(s: Seq<char>)
    requires
        s.len() > 0,
    ensures
        lines_of(s).len() > 0,
{
    reveal_with_fuel(lines_of, 2);
}

/// Joining the lines with one more empty line ends the text with a line feed.
pub proof fn lemma_joined_push_empty(lines: Seq<Seq<char>>)
    requires
        lines.len() > 0,
    ensures
        joined(lines.push(seq![])) == joined(lines) + seq!['\n'],
{
    lemma_joined_push(lines, seq![]);
    assert(joined(lines) + seq!['\n'] + seq![] =~= joined(lines) + seq!['\n']);
}

/// Unicode `White_Space` characters, as `char::is_whitespace` tests them.
pub open spec fn is_white_space(c: char) -> bool {
    ||| '\t' <= c <= '\r'
    ||| c == ' '
    ||| c == '\u{85}'
    ||| c == '\u{a0}'
    ||| c == '\u{1680}'
    ||| '\u{2000}' <= c <= '\u{200a}'
    ||| c == '\u{2028}'
    ||| c == '\u{2029}'
    ||| c == '\u{202f}'
    ||| c == '\u{205f}'
    ||| c == '\u{3000}'
}

/// Number of words of `s`: maximal runs of characters that are not white space.
pub open spec fn word_count(s: Seq<char>) -> nat
    decreases s.len(),
{
    if s.len() == 0 {
        0
    } else {
        let n = s.len() as int;
        word_count(s.drop_last()) + if !is_white_space(s[n - 1]) && (n == 1 || is_white_space(s[n - 2])) {
            1nat
        } else {
            0nat
        }
    }
}

/// Whether `c` is white space.
pub fn is_whitespace(c: char) -> (r: bool)
    ensures
        r == is_white_space(c),
{
    ('\t' <= c && c <= '\r') || c == ' ' || c == '\u{85}' || c == '\u{a0}' || c == '\u{1680}' || (
    '\u{2000}' <= c && c <= '\u{200a}') || c == '\u{2028}' || c == '\u{2029}' || c == '\u{202f}'
        || c == '\u{205f}' || c == '\u{3000}'
}

/// Number of words in `s`, as `s.split_whitespace().count()`.
pub fn count_words(s: &Vec<char>) -> (r: usize)
    ensures
        r == word_count(s@),
{
    let mut n: usize = 0;
    let mut i: usize = 0;
    while i < s.len()
        invariant
            i <= s@.len(),
            n == word_count(s@.take(i as int)),
            n <= i,
        decreases s@.len() - i,
    {
        proof {
            let t = s@.take(i + 1);
            assert(t.drop_last() =~= s@.take(i as int));
        }
        if !is_whitespace(s[i]) && (i == 0 || is_whitespace(s[i - 1])) {
            n = n + 1;
        }
        i = i + 1;
    }
    proof {
        assert(s@.take(i as int) =~= s@);
    }
    n
}

/// Position of the first line feed of `s` at or after `start`, or the length of `s`.
fn find_newline(s: &Vec<char>, start: usize) -> (r: usize)
    requires
        start <= s@.len(),
    ensures
        r == start + newline_pos(s@.skip(start as int)),
        r <= s@.len(),
{
    let mut i = start;
    while i < s.len() && s[i] != '\n'
        invariant
            start <= i <= s@.len(),
            newline_pos(s@.skip(start as int)) == (i - start) + newline_pos(s@.skip(i as int)),
        decreases s@.len() - i,
    {
        proof {
            assert(s@.skip(i as int).drop_first() =~= s@.skip(i + 1));
        }
        i = i + 1;
    }
    proof {
        if i < s@.len() {
            assert(s@.skip(i as int)[0] == s@[i as int]);
        }
    }
    i
}

/// The lines of `s`, as `s.lines()` yields them.
pub fn split_lines(s: &Vec<char>) -> (r: Vec<Vec<char>>)
    ensures
        r@.len() == lines_of(s@).len(),
        forall|i: int| 0 <= i < r@.len() ==> (#[trigger] r@[i])@ == lines_of(s@)[i],
{
    let mut out: Vec<Vec<char>> = Vec::new();
    let mut start: usize = 0;
    proof {
        assert(s@.skip(0) =~= s@);
        assert(out@.map_values(|l: Vec<char>| l@) + lines_of(s@) =~= lines_of(s@));
    }
    while start < s.len()
        invariant
            start <= s@.len(),
            lines_of(s@) == out@.map_values(|l: Vec<char>| l@) + lines_of(s@.skip(start as int)),
        decreases s@.len() - start,
    {
        let ghost rest = s@.skip(start as int);
        let end = find_newline(s, start);
        let mut line: Vec<char> = Vec::new();
        let mut j = start;
        while j < end
            invariant
                start <= j <= end <= s@.len(),
                line@ == s@.subrange(start as int, j as int),
            decreases end - j,
        {
            line.push(s[j]);
            j = j + 1;
            proof {
                assert(line@ =~= s@.subrange(start as int, j as int));
            }
        }
        let ghost before = out@;
        if end < s.len() {
            if line.len() > 0 && line[line.len() - 1] == '\r' {
                line.pop();
            }
            proof {
                assert(s@.subrange(start as int, end as int) =~= rest.take(end - start));
                assert(rest.skip(end - start + 1) =~= s@.skip(end + 1));
                assert(line@ == strip_cr(rest.take(end - start)));
            }
            out.push(line);
            start = end + 1;
        } else {
            proof {
                assert(s@.subrange(start as int, end as int) =~= rest);
                assert(s@.skip(end as int) =~= Seq::<char>::empty());
            }
            out.push(line);
            start = end;
        }
        proof {
            assert(out@.map_values(|l: Vec<char>| l@) =~= before.map_values(|l: Vec<char>| l@).push(out@.last()@));
        }
    }
    proof {
        assert(s@.skip(start as int) =~= Seq::<char>::empty());
        assert(lines_of(s@) =~= out@.map_values(|l: Vec<char>| l@));
    }
    out
}

} // verus!
