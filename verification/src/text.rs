//! Newline-oriented text manipulation: splitting a payload on `'\n'`,
//! joining buffer lines with `'\n'`, and splitting a line at the caret.
//!
//! Positions in a line are counted in Unicode scalar values, so every
//! position is a character boundary by construction.

use vstd::prelude::*;
use vstd::string::*;

verus! {

/// True when `s` holds no newline character.
pub open spec fn no_newline(s: Seq<char>) -> bool {
    forall|i: int| 0 <= i < s.len() ==> s[i] != '\n'
}

/// The chunks of `s` between newline separators, in order.
///
/// Splitting the empty sequence gives one empty chunk, and every newline
/// contributes one further chunk, so the result is never empty and
/// consecutive newlines yield empty chunks in between.
pub open spec fn split_nl(s: Seq<char>) -> Seq<Seq<char>>
    decreases s.len(),
{
    if s.len() == 0 {
        seq![Seq::<char>::empty()]
    } else if s.last() == '\n' {
        split_nl(s.drop_last()).push(Seq::<char>::empty())
    } else {
        let rest = split_nl(s.drop_last());
        rest.update(rest.len() - 1, rest.last().push(s.last()))
    }
}

/// The lines of a buffer joined with a single `'\n'` between them.
pub open spec fn joined(lines: Seq<Seq<char>>) -> Seq<char>
    decreases lines.len(),
{
    if lines.len() == 0 {
        Seq::<char>::empty()
    } else if lines.len() == 1 {
        lines[0]
    } else {
        joined(lines.drop_last()) + seq!['\n'] + lines.last()
    }
}

/// Splitting never yields an empty chunk list.
pub proof fn lemma_split_nl_len(s: Seq<char>)
    ensures
        split_nl(s).len() >= 1,
    decreases s.len(),
{
    if s.len() > 0 {
        lemma_split_nl_len(s.drop_last());
    }
}

/// A text splits into a single chunk exactly when it holds no newline,
/// and that single chunk is the text itself.
pub proof fn lemma_split_nl_single(s: Seq<char>)
    ensures
        no_newline(s) <==> split_nl(s).len() == 1,
        no_newline(s) ==> split_nl(s) == seq![s],
    decreases s.len(),
{
    lemma_split_nl_len(s);
    if s.len() == 0 {
        assert(split_nl(s) =~~= seq![s]);
    } else {
        lemma_split_nl_single(s.drop_last());
        lemma_split_nl_len(s.drop_last());
        if s.last() != '\n' {
            assert(no_newline(s) <==> no_newline(s.drop_last())) by {
                if no_newline(s.drop_last()) {
                    assert forall|i: int| 0 <= i < s.len() implies s[i] != '\n' by {
                        if i < s.len() - 1 {
                            assert(s.drop_last()[i] != '\n');
                        }
                    }
                }
            }
            if no_newline(s) {
                assert(split_nl(s) =~~= seq![s]) by {
                    assert(split_nl(s.drop_last()) == seq![s.drop_last()]);
                    assert(s.drop_last().push(s.last()) =~= s);
                }
            }
        }
    }
}

/// Newline-freeness is closed under concatenation.
pub proof fn lemma_no_newline_concat(x: Seq<char>, y: Seq<char>)
    requires
        no_newline(x),
        no_newline(y),
    ensures
        no_newline(x + y),
{
    assert forall|j: int| 0 <= j < (x + y).len() implies (x + y)[j] != '\n' by {
        if j < x.len() {
            assert((x + y)[j] == x[j]);
        } else {
            assert((x + y)[j] == y[j - x.len()]);
        }
    }
}

/// Newline-freeness is closed under taking a subrange.
pub proof fn lemma_no_newline_subrange(x: Seq<char>, a: int, b: int)
    requires
        no_newline(x),
        0 <= a <= b <= x.len(),
    ensures
        no_newline(x.subrange(a, b)),
{
    assert forall|j: int| 0 <= j < x.subrange(a, b).len() implies x.subrange(a, b)[j] != '\n' by {
        assert(x.subrange(a, b)[j] == x[a + j]);
    }
}

/// Every chunk of a split is itself free of newlines.
pub proof fn lemma_split_nl_chunks_newline_free(s: Seq<char>)
    ensures
        forall|i: int| 0 <= i < split_nl(s).len() ==> no_newline(#[trigger] split_nl(s)[i]),
    decreases s.len(),
{
    if s.len() == 0 {
        assert(no_newline(split_nl(s)[0]));
    } else {
        lemma_split_nl_chunks_newline_free(s.drop_last());
        lemma_split_nl_len(s.drop_last());
        let rest = split_nl(s.drop_last());
        if s.last() == '\n' {
            assert forall|i: int| 0 <= i < split_nl(s).len() implies no_newline(
                #[trigger] split_nl(s)[i],
            ) by {
                if i < rest.len() {
                    assert(no_newline(rest[i]));
                }
            }
        } else {
            let grown = rest.last().push(s.last());
            assert(no_newline(grown)) by {
                assert(no_newline(rest[rest.len() - 1]));
                assert forall|j: int| 0 <= j < grown.len() implies grown[j] != '\n' by {
                    if j < grown.len() - 1 {
                        assert(grown[j] == rest.last()[j]);
                    }
                }
            }
            assert forall|i: int| 0 <= i < split_nl(s).len() implies no_newline(
                #[trigger] split_nl(s)[i],
            ) by {
                if i < rest.len() - 1 {
                    assert(no_newline(rest[i]));
                }
            }
        }
    }
}

/// Appending a newline and then a newline-free line to a text adds exactly
/// one chunk to its split.
pub proof fn lemma_split_nl_append_line(s: Seq<char>, t: Seq<char>)
    requires
        no_newline(t),
    ensures
        split_nl(s + seq!['\n'] + t) == split_nl(s).push(t),
    decreases t.len(),
{
    let u = s + seq!['\n'] + t;
    if t.len() == 0 {
        assert(u =~= s + seq!['\n']);
        assert(u.last() == '\n');
        assert(u.drop_last() =~= s);
        assert(t =~= Seq::<char>::empty());
    } else {
        assert(u.last() == t.last());
        assert(u.drop_last() =~= s + seq!['\n'] + t.drop_last());
        assert(no_newline(t.drop_last())) by {
            assert forall|j: int| 0 <= j < t.len() - 1 implies t.drop_last()[j] != '\n' by {
                assert(t.drop_last()[j] == t[j]);
            }
        }
        lemma_split_nl_append_line(s, t.drop_last());
        lemma_split_nl_len(s);
        let rest = split_nl(u.drop_last());
        assert(rest.last() == t.drop_last());
        assert(t.drop_last().push(t.last()) =~= t);
        assert(split_nl(u) =~~= split_nl(s).push(t));
    }
}

/// Law: joining newline-free lines with `'\n'` and splitting the result on
/// `'\n'` gives the lines back exactly. In particular, a submitted message —
/// the buffer's lines joined — renders back into exactly those lines.
pub proof fn lemma_join_then_split_restores(lines: Seq<Seq<char>>)
    requires
        lines.len() >= 1,
        forall|i: int| 0 <= i < lines.len() ==> no_newline(#[trigger] lines[i]),
    ensures
        split_nl(joined(lines)) == lines,
    decreases lines.len(),
{
    if lines.len() == 1 {
        lemma_split_nl_single(lines[0]);
        assert(split_nl(joined(lines)) =~~= lines);
    } else {
        assert forall|i: int| 0 <= i < lines.len() - 1 implies no_newline(
            #[trigger] lines.drop_last()[i],
        ) by {
            assert(lines.drop_last()[i] == lines[i]);
        }
        lemma_join_then_split_restores(lines.drop_last());
        lemma_split_nl_append_line(joined(lines.drop_last()), lines.last());
        assert(split_nl(joined(lines)) =~~= lines);
    }
}

/// Splits `s` on `'\n'`; the resulting chunks are exactly `split_nl(s@)`.
pub fn split_newlines(s: &str) -> (chunks: Vec<String>)
    ensures
        chunks.deep_view() == split_nl(s@),
        chunks.len() >= 1,
{
    let n = s.unicode_len();
    let mut chunks: Vec<String> = Vec::new();
    let mut start: usize = 0;
    let mut i: usize = 0;
    proof {
        assert(chunks.deep_view().push(s@.subrange(0, 0)) =~~= split_nl(s@.take(0)));
    }
    while i < n
        invariant
            start <= i <= n,
            n == s@.len(),
            split_nl(s@.take(i as int)) == chunks.deep_view().push(
                s@.subrange(start as int, i as int),
            ),
        decreases n - i,
    {
        let ghost prev = chunks.deep_view().push(s@.subrange(start as int, i as int));
        proof {
            assert(s@.take(i + 1).drop_last() =~= s@.take(i as int));
            assert(s@.take(i + 1).last() == s@[i as int]);
        }
        let c = s.get_char(i);
        if c == '\n' {
            let piece = String::from_str(s.substring_char(start, i));
            chunks.push(piece);
            start = i + 1;
            proof {
                assert(split_nl(s@.take(i + 1)) =~~= chunks.deep_view().push(
                    s@.subrange(i + 1, i + 1),
                ));
            }
        } else {
            proof {
                assert(split_nl(s@.take(i + 1)) == prev.update(
                    prev.len() - 1,
                    prev.last().push(s@[i as int]),
                ));
                assert(s@.subrange(start as int, i as int).push(s@[i as int]) =~= s@.subrange(
                    start as int,
                    i + 1,
                ));
                assert(split_nl(s@.take(i + 1)) =~~= chunks.deep_view().push(
                    s@.subrange(start as int, i + 1),
                ));
            }
        }
        i = i + 1;
    }
    let tail = String::from_str(s.substring_char(start, n));
    chunks.push(tail);
    proof {
        assert(s@.take(n as int) =~= s@);
        assert(chunks.deep_view() =~~= split_nl(s@));
    }
    chunks
}

/// True exactly when `s` holds a newline character.
pub fn contains_newline(s: &str) -> (b: bool)
    ensures
        b == !no_newline(s@),
{
    let n = s.unicode_len();
    let mut i: usize = 0;
    while i < n
        invariant
            i <= n,
            n == s@.len(),
            forall|j: int| 0 <= j < i ==> s@[j] != '\n',
        decreases n - i,
    {
        if s.get_char(i) == '\n' {
            return true;
        }
        i = i + 1;
    }
    false
}

/// Joins `lines` with a single `'\n'` between consecutive lines.
pub fn join_lines(lines: &Vec<String>) -> (r: String)
    ensures
        r@ == joined(lines.deep_view()),
{
    let mut r = String::new();
    let mut i: usize = 0;
    proof {
        assert(joined(lines.deep_view().take(0)) =~= Seq::<char>::empty());
    }
    while i < lines.len()
        invariant
            i <= lines.len(),
            r@ == joined(lines.deep_view().take(i as int)),
        decreases lines.len() - i,
    {
        let ghost prev = lines.deep_view().take(i as int);
        if i > 0 {
            proof {
                reveal_strlit("\n");
            }
            r.append("\n");
        }
        r.append(lines[i].as_str());
        proof {
            assert(lines.deep_view().take(i + 1).drop_last() =~= prev);
            assert(lines.deep_view().take(i + 1).last() == lines.deep_view()[i as int]);
            if i == 0 {
                assert(r@ =~= joined(lines.deep_view().take(i + 1)));
            } else {
                assert("\n"@ =~= seq!['\n']);
                assert(r@ =~= joined(lines.deep_view().take(i + 1)));
            }
        }
        i = i + 1;
    }
    proof {
        assert(lines.deep_view().take(lines.len() as int) =~= lines.deep_view());
    }
    r
}

/// Splits `line` at the caret position into the text before and after it,
/// for rendering a visual caret. `cursor` counts Unicode scalar values.
pub fn caret_split(line: &str, cursor: usize) -> (parts: (&str, &str))
    requires
        cursor <= line@.len(),
    ensures
        parts.0@ == line@.take(cursor as int),
        parts.1@ == line@.skip(cursor as int),
{
    let n = line.unicode_len();
    let before = line.substring_char(0, cursor);
    let after = line.substring_char(cursor, n);
    proof {
        assert(line@.subrange(0, cursor as int) =~= line@.take(cursor as int));
        assert(line@.subrange(cursor as int, n as int) =~= line@.skip(cursor as int));
    }
    (before, after)
}

} // verus!
