//! Small helpers for reading strings as sequences of characters.

use vstd::prelude::*;
use vstd::string::*;

verus! {

/// The characters of a string, in order.
pub fn chars_of(s: &str) -> (v: Vec<char>)
    ensures
        v@ == s@,
{
    let mut v: Vec<char> = Vec::new();
    for c in it: s.chars()
        invariant
            it.seq() == s@,
            v@ == it.seq().take(it.index()),
    {
        v.push(c);
    }
    v
}

/// Whether `prefix` is a prefix of `s`.
pub open spec fn is_prefix(prefix: Seq<char>, s: Seq<char>) -> bool {
    prefix.len() <= s.len() && s.take(prefix.len() as int) == prefix
}

/// Whether `s` starts with the characters of `prefix`.
pub fn has_prefix(s: &Vec<char>, prefix: &Vec<char>) -> (b: bool)
    ensures
        b == is_prefix(prefix@, s@),
{
    if prefix.len() > s.len() {
        return false;
    }
    let mut i: usize = 0;
    while i < prefix.len()
        invariant
            i <= prefix.len() <= s.len(),
            forall|j: int| 0 <= j < i ==> s@[j] == prefix@[j],
        decreases prefix.len() - i,
    {
        if s[i] != prefix[i] {
            assert(s@.take(prefix@.len() as int)[i as int] != prefix@[i as int]);
            return false;
        }
        i += 1;
    }
    assert(s@.take(prefix@.len() as int) =~= prefix@);
    true
}

/// The character sequences that a vector of strings holds.
pub open spec fn texts(v: Seq<String>) -> Seq<Seq<char>> {
    Seq::new(v.len(), |i: int| v[i]@)
}

/// The number of characters before the first line feed of `s`, or the
/// length of `s` when it has none.
pub open spec fn line_len(s: Seq<char>) -> nat
    decreases s.len(),
{
    if s.len() == 0 || s[0] == '\n' {
        0
    } else {
        1 + line_len(s.skip(1))
    }
}

/// `line` without one trailing carriage return, if it has one.
pub open spec fn without_return(line: Seq<char>) -> Seq<char> {
    if line.len() > 0 && line.last() == '\r' {
        line.drop_last()
    } else {
        line
    }
}

/// The lines of a text. A line ends at a line feed; a carriage return just
/// before that line feed is not part of the line. Text after the last line
/// feed is a line of its own unless it is empty.
pub open spec fn lines_of(s: Seq<char>) -> Seq<Seq<char>>
    decreases s.len(),
{
    if s.len() == 0 {
        Seq::empty()
    } else {
        let n = line_len(s);
        if n < s.len() {
            seq![without_return(s.take(n as int))] + lines_of(s.skip(n as int + 1))
        } else {
            seq![s]
        }
    }
}

/// `line_len` is the position of the first line feed.
pub proof fn lemma_line_len(s: Seq<char>, k: int)
    requires
        0 <= k <= s.len(),
        forall|j: int| 0 <= j < k ==> s[j] != '\n',
        k == s.len() || s[k] == '\n',
    ensures
        line_len(s) == k,
    decreases k,
{
    if k > 0 {
        lemma_line_len(s.skip(1), k - 1);
    }
}

/// Splits a text into its lines.
pub fn split_lines(content: &str) -> (out: Vec<String>)
    ensures
        texts(out@) == lines_of(content@),
{
    let cs = chars_of(content);
    let n = cs.len();
    let mut out: Vec<String> = Vec::new();
    let mut pos: usize = 0;
    assert(content@.skip(0) =~= content@);
    assert(texts(out@) =~= Seq::<Seq<char>>::empty());
    while pos < n
        invariant
            pos <= n,
            n == cs@.len(),
            cs@ == content@,
            lines_of(content@) == texts(out@) + lines_of(content@.skip(pos as int)),
        decreases n - pos,
    {
        let mut end: usize = pos;
        while end < n && cs[end] != '\n'
            invariant
                pos <= end <= n,
                n == cs@.len(),
                forall|j: int| pos <= j < end ==> cs@[j] != '\n',
            decreases n - end,
        {
            end += 1;
        }
        let ghost rest = content@.skip(pos as int);
        let ghost before = texts(out@);
        proof {
            lemma_line_len(rest, end - pos);
        }
        if end < n {
            let mut stop: usize = end;
            if stop > pos && cs[stop - 1] == '\r' {
                stop = stop - 1;
            }
            let line = String::from_str(content.substring_char(pos, stop));
            proof {
                let raw = rest.take(end - pos);
                assert(raw =~= content@.subrange(pos as int, end as int));
                if raw.len() > 0 {
                    assert(raw.last() == cs@[end - 1]);
                }
                assert(line@ =~= without_return(raw));
                assert(rest.skip(end - pos + 1) =~= content@.skip(end + 1));
            }
            out.push(line);
            pos = end + 1;
            proof {
                assert(texts(out@) =~= before + seq![line@]);
                assert(lines_of(content@) =~= texts(out@) + lines_of(content@.skip(pos as int)));
            }
        } else {
            let line = String::from_str(content.substring_char(pos, n));
            proof {
                assert(line@ =~= rest);
                assert(lines_of(rest) =~= seq![rest]);
            }
            out.push(line);
            pos = n;
            proof {
                assert(texts(out@) =~= before + seq![line@]);
                assert(lines_of(content@.skip(n as int)) =~= Seq::<Seq<char>>::empty());
                assert(lines_of(content@) =~= texts(out@) + lines_of(content@.skip(pos as int)));
            }
        }
    }
    assert(lines_of(content@.skip(pos as int)) =~= Seq::<Seq<char>>::empty());
    assert(texts(out@) + Seq::<Seq<char>>::empty() =~= texts(out@));
    out
}

/// The text that holds `lines` with a line feed between one line and the
/// next.
pub open spec fn joined_lines(lines: Seq<Seq<char>>) -> Seq<char>
    decreases lines.len(),
{
    if lines.len() == 0 {
        Seq::empty()
    } else if lines.len() == 1 {
        lines[0]
    } else {
        joined_lines(lines.drop_last()) + seq!['\n'] + lines.last()
    }
}

/// Writes lines as one text, with a line feed between one line and the
/// next.
pub fn join_lines(lines: &Vec<String>) -> (text: String)
    ensures
        text@ == joined_lines(texts(lines@)),
{
    let mut text = String::new();
    let ghost all = texts(lines@);
    let mut i: usize = 0;
    assert(all.take(0) =~= Seq::<Seq<char>>::empty());
    while i < lines.len()
        invariant
            i <= lines@.len(),
            all == texts(lines@),
            text@ == joined_lines(all.take(i as int)),
        decreases lines.len() - i,
    {
        proof {
            reveal_strlit("\n");
            assert(all.take(i + 1).drop_last() =~= all.take(i as int));
            assert(all.take(i + 1).last() == lines@[i as int]@);
        }
        if i > 0 {
            text.append("\n");
        }
        text.append(lines[i].as_str());
        proof {
            if i == 0 {
                assert(text@ =~= lines@[0]@);
                assert(all.take(1)[0] == lines@[0]@);
            } else {
                assert(text@ =~= joined_lines(all.take(i as int)) + seq!['\n'] + lines@[i as int]@);
            }
        }
        i += 1;
    }
    assert(all.take(i as int) =~= all);
    text
}

/// A line that can be written and read back as it is: it is not empty,
/// holds no line feed and does not end with a carriage return.
pub open spec fn plain_line(line: Seq<char>) -> bool {
    &&& line.len() > 0
    &&& !line.contains('\n')
    &&& line.last() != '\r'
}

proof fn lemma_joined_from_the_front(first: Seq<char>, rest: Seq<Seq<char>>)
    requires
        rest.len() > 0,
    ensures
        joined_lines(seq![first] + rest) == first + seq!['\n'] + joined_lines(rest),
    decreases rest.len(),
{
    let all = seq![first] + rest;
    assert(all.drop_last() =~= seq![first] + rest.drop_last());
    assert(all.last() == rest.last());
    if rest.len() == 1 {
        assert(all.drop_last() =~= seq![first]);
        assert(joined_lines(seq![first]) == first);
        assert(joined_lines(rest) == rest[0]);
        assert(joined_lines(all) =~= first + seq!['\n'] + rest[0]);
    } else {
        lemma_joined_from_the_front(first, rest.drop_last());
        assert(joined_lines(all) =~= first + seq!['\n'] + joined_lines(rest));
    }
}

/// Plain lines that were written as one text are read back as they were.
pub proof fn lemma_lines_of_joined(lines: Seq<Seq<char>>)
    requires
        forall|i: int| 0 <= i < lines.len() ==> plain_line(#[trigger] lines[i]),
    ensures
        lines_of(joined_lines(lines)) == lines,
    decreases lines.len(),
{
    if lines.len() == 0 {
    } else if lines.len() == 1 {
        let only = lines[0];
        assert(plain_line(only));
        assert forall|j: int| 0 <= j < only.len() implies only[j] != '\n' by {
            if only[j] == '\n' {
                assert(only.contains('\n'));
            }
        }
        lemma_line_len(only, only.len() as int);
        assert(lines_of(only) =~= seq![only]);
        assert(lines =~= seq![only]);
    } else {
        let first = lines[0];
        let rest = lines.skip(1);
        assert(lines =~= seq![first] + rest);
        assert(plain_line(first));
        assert forall|i: int| 0 <= i < rest.len() implies plain_line(#[trigger] rest[i]) by {
            assert(rest[i] == lines[i + 1]);
        }
        lemma_joined_from_the_front(first, rest);
        lemma_lines_of_joined(rest);
        let text = first + seq!['\n'] + joined_lines(rest);
        assert forall|j: int| 0 <= j < first.len() implies text[j] != '\n' by {
            if first[j] == '\n' {
                assert(first.contains('\n'));
            }
        }
        assert(text[first.len() as int] == '\n');
        lemma_line_len(text, first.len() as int);
        assert(text.take(first.len() as int) =~= first);
        assert(text.skip(first.len() as int + 1) =~= joined_lines(rest));
        assert(lines_of(text) =~= seq![first] + rest);
    }
}

} // verus!
