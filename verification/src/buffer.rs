//! The line buffer: an ordered sequence of text lines plus a cursor.
//!
//! The buffer is the single piece of state behind a chat input box. It always
//! holds at least one line (the empty buffer is one empty line), the active
//! line index is always in range, and the cursor always lies between 0 and the
//! length of the active line. Positions count Unicode scalar values, so every
//! cursor position is a character boundary by construction.
//!
//! Every operation requires and re-establishes [`BufferModel::wf`], so the
//! invariant holds after any sequence of operations on a fresh buffer.

use vstd::prelude::*;
use vstd::string::*;

use crate::text::join_lines;
use crate::text::joined;
use crate::text::lemma_no_newline_concat;
use crate::text::lemma_no_newline_subrange;
use crate::text::lemma_split_nl_chunks_newline_free;
use crate::text::no_newline;
use crate::text::split_newlines;
use crate::text::split_nl;

verus! {

/// The mathematical value of a [`LineBuffer`]: the lines as sequences of
/// Unicode scalar values, the active line index, and the cursor position
/// within the active line.
#[verifier::ext_equal]
pub struct BufferModel {
    pub lines: Seq<Seq<char>>,
    pub active: int,
    pub cursor: int,
}

impl BufferModel {
    /// Well-formedness: at least one line, active index in range, cursor
    /// within the active line, and no line holds a newline — line breaks
    /// exist only as the boundaries between lines.
    pub open spec fn wf(self) -> bool {
        &&& self.lines.len() >= 1
        &&& 0 <= self.active < self.lines.len()
        &&& 0 <= self.cursor <= self.lines[self.active].len()
        &&& forall|i: int| 0 <= i < self.lines.len() ==> no_newline(#[trigger] self.lines[i])
    }

    /// The text of the active line.
    pub open spec fn active_text(self) -> Seq<char> {
        self.lines[self.active]
    }
}

/// The initial state: one empty line, cursor at its start.
pub open spec fn empty_model() -> BufferModel {
    BufferModel { lines: seq![Seq::<char>::empty()], active: 0, cursor: 0 }
}

/// Replacing one line with a newline-free line keeps every line
/// newline-free.
proof fn lemma_update_keeps_newline_free(lines: Seq<Seq<char>>, a: int, line: Seq<char>)
    requires
        forall|i: int| 0 <= i < lines.len() ==> no_newline(#[trigger] lines[i]),
        no_newline(line),
        0 <= a < lines.len(),
    ensures
        forall|i: int|
            0 <= i < lines.update(a, line).len() ==> no_newline(
                #[trigger] lines.update(a, line)[i],
            ),
{
    assert forall|i: int| 0 <= i < lines.update(a, line).len() implies no_newline(
        lines.update(a, line)[i],
    ) by {
        if i != a {
            assert(lines.update(a, line)[i] == lines[i]);
            assert(no_newline(lines[i]));
        }
    }
}

/// Replacing the lines from `a` (inclusive) to `b` (exclusive) with a block
/// of newline-free lines keeps every line newline-free.
proof fn lemma_replace_keeps_newline_free(
    lines: Seq<Seq<char>>,
    a: int,
    b: int,
    block: Seq<Seq<char>>,
)
    requires
        forall|i: int| 0 <= i < lines.len() ==> no_newline(#[trigger] lines[i]),
        forall|i: int| 0 <= i < block.len() ==> no_newline(#[trigger] block[i]),
        0 <= a <= b <= lines.len(),
    ensures
        forall|i: int|
            0 <= i < (lines.take(a) + block + lines.skip(b)).len() ==> no_newline(
                #[trigger] (lines.take(a) + block + lines.skip(b))[i],
            ),
{
    let result = lines.take(a) + block + lines.skip(b);
    assert forall|i: int| 0 <= i < result.len() implies no_newline(result[i]) by {
        if i < a {
            assert(result[i] == lines[i]);
            assert(no_newline(lines[i]));
        } else if i < a + block.len() {
            assert(result[i] == block[i - a]);
            assert(no_newline(block[i - a]));
        } else {
            assert(result[i] == lines[b + (i - a - block.len())]);
            assert(no_newline(lines[b + (i - a - block.len())]));
        }
    }
}

/// Inserting `s` at the cursor within the active line.
pub open spec fn insert_text_m(m: BufferModel, s: Seq<char>) -> BufferModel {
    let line = m.active_text();
    BufferModel {
        lines: m.lines.update(m.active, line.take(m.cursor) + s + line.skip(m.cursor)),
        active: m.active,
        cursor: m.cursor + s.len(),
    }
}

/// Cutting the active line at the cursor: the prefix stays, the suffix
/// becomes a new line right below, and the cursor moves to its start.
pub open spec fn split_line_m(m: BufferModel) -> BufferModel {
    let line = m.active_text();
    BufferModel {
        lines: m.lines.take(m.active) + seq![line.take(m.cursor), line.skip(m.cursor)]
            + m.lines.skip(m.active + 1),
        active: m.active + 1,
        cursor: 0,
    }
}

/// Appending the active line onto the previous line and removing it; the
/// cursor lands at the merge point, where the removed line break used to be.
pub open spec fn merge_prev_m(m: BufferModel) -> BufferModel {
    if m.active > 0 {
        BufferModel {
            lines: m.lines.take(m.active - 1) + seq![m.lines[m.active - 1] + m.lines[m.active]]
                + m.lines.skip(m.active + 1),
            active: m.active - 1,
            cursor: m.lines[m.active - 1].len() as int,
        }
    } else {
        m
    }
}

/// Appending the next line onto the active line and removing it; the cursor
/// does not move.
pub open spec fn merge_next_m(m: BufferModel) -> BufferModel {
    if m.active + 1 < m.lines.len() {
        BufferModel {
            lines: m.lines.take(m.active) + seq![m.lines[m.active] + m.lines[m.active + 1]]
                + m.lines.skip(m.active + 2),
            active: m.active,
            cursor: m.cursor,
        }
    } else {
        m
    }
}

/// Removing the character just before the cursor; at the start of a line
/// this degrades to a merge with the previous line, and at the very start
/// of the buffer it is a no-op.
pub open spec fn delete_before_m(m: BufferModel) -> BufferModel {
    if m.cursor > 0 {
        let line = m.active_text();
        BufferModel {
            lines: m.lines.update(m.active, line.take(m.cursor - 1) + line.skip(m.cursor)),
            active: m.active,
            cursor: m.cursor - 1,
        }
    } else {
        merge_prev_m(m)
    }
}

/// Removing the character just after the cursor; at the end of a line this
/// degrades to a merge with the next line, and at the very end of the buffer
/// it is a no-op.
pub open spec fn delete_after_m(m: BufferModel) -> BufferModel {
    if m.cursor < m.active_text().len() {
        let line = m.active_text();
        BufferModel {
            lines: m.lines.update(m.active, line.take(m.cursor) + line.skip(m.cursor + 1)),
            active: m.active,
            cursor: m.cursor,
        }
    } else {
        merge_next_m(m)
    }
}

/// Moving the cursor one position left; crossing a line boundary lands at
/// the end of the previous line.
pub open spec fn move_left_m(m: BufferModel) -> BufferModel {
    if m.cursor > 0 {
        BufferModel { cursor: m.cursor - 1, ..m }
    } else if m.active > 0 {
        BufferModel {
            lines: m.lines,
            active: m.active - 1,
            cursor: m.lines[m.active - 1].len() as int,
        }
    } else {
        m
    }
}

/// Moving the cursor one position right; crossing a line boundary lands at
/// the start of the next line.
pub open spec fn move_right_m(m: BufferModel) -> BufferModel {
    if m.cursor < m.active_text().len() {
        BufferModel { cursor: m.cursor + 1, ..m }
    } else if m.active + 1 < m.lines.len() {
        BufferModel { lines: m.lines, active: m.active + 1, cursor: 0 }
    } else {
        m
    }
}

/// Moving to the previous line; the cursor resets to column 0. Column
/// position is deliberately not preserved across vertical moves.
pub open spec fn move_up_m(m: BufferModel) -> BufferModel {
    if m.active > 0 {
        BufferModel { lines: m.lines, active: m.active - 1, cursor: 0 }
    } else {
        m
    }
}

/// Moving to the next line; the cursor resets to column 0.
pub open spec fn move_down_m(m: BufferModel) -> BufferModel {
    if m.active + 1 < m.lines.len() {
        BufferModel { lines: m.lines, active: m.active + 1, cursor: 0 }
    } else {
        m
    }
}

/// Moving the cursor to the start of the active line.
pub open spec fn move_home_m(m: BufferModel) -> BufferModel {
    BufferModel { cursor: 0, ..m }
}

/// Moving the cursor to the end of the active line.
pub open spec fn move_end_m(m: BufferModel) -> BufferModel {
    BufferModel { cursor: m.active_text().len() as int, ..m }
}

/// Selecting a line directly (a click on a rendered line); the cursor resets
/// to column 0. Out-of-range indices leave the buffer unchanged.
pub open spec fn set_active_m(m: BufferModel, index: int) -> BufferModel {
    if 0 <= index < m.lines.len() {
        BufferModel { lines: m.lines, active: index, cursor: 0 }
    } else {
        m
    }
}

/// Pasting `payload` at the cursor. The payload is split on newlines into
/// chunks; the first chunk extends the text before the cursor, middle chunks
/// become whole new lines, and the last chunk starts a new line that also
/// receives the text that followed the cursor. A payload without a newline
/// reassembles the active line around the inserted text.
pub open spec fn paste_m(m: BufferModel, payload: Seq<char>) -> BufferModel {
    let chunks = split_nl(payload);
    let line = m.active_text();
    let before = line.take(m.cursor);
    let after = line.skip(m.cursor);
    if chunks.len() == 1 {
        BufferModel {
            lines: m.lines.update(m.active, before + chunks[0] + after),
            active: m.active,
            cursor: m.cursor + chunks[0].len(),
        }
    } else {
        BufferModel {
            lines: m.lines.take(m.active) + seq![before + chunks.first()]
                + chunks.subrange(1, chunks.len() - 1) + seq![chunks.last() + after]
                + m.lines.skip(m.active + 1),
            active: m.active + chunks.len() - 1,
            cursor: chunks.last().len() as int,
        }
    }
}

/// A chat input's line buffer: the lines being composed and the cursor.
pub struct LineBuffer {
    lines: Vec<String>,
    active_line: usize,
    cursor: usize,
}

impl View for LineBuffer {
    type V = BufferModel;

    closed spec fn view(&self) -> BufferModel {
        BufferModel {
            lines: self.lines.deep_view(),
            active: self.active_line as int,
            cursor: self.cursor as int,
        }
    }
}

impl LineBuffer {
    /// Creates the initial empty buffer: one empty line, cursor at its start.
    pub fn new() -> (buf: LineBuffer)
        ensures
            buf@ == empty_model(),
            buf@.wf(),
    {
        let mut lines: Vec<String> = Vec::new();
        lines.push(String::new());
        let buf = LineBuffer { lines, active_line: 0, cursor: 0 };
        proof {
            assert(buf@.lines =~~= empty_model().lines);
            assert(buf@ =~~= empty_model());
        }
        buf
    }

    /// Resets the buffer to the initial empty state.
    pub fn clear(&mut self)
        ensures
            final(self)@ == empty_model(),
            final(self)@.wf(),
    {
        self.lines.clear();
        self.lines.push(String::new());
        self.active_line = 0;
        self.cursor = 0;
        proof {
            assert(self@.lines =~~= empty_model().lines);
            assert(self@ =~~= empty_model());
        }
    }

    /// Inserts `s` (which must hold no newline) at the cursor and advances
    /// the cursor past it.
    pub fn insert_text(&mut self, s: &str)
        requires
            old(self)@.wf(),
            no_newline(s@),
        ensures
            final(self)@ == insert_text_m(old(self)@, s@),
            final(self)@.wf(),
    {
        let a = self.active_line;
        let n = self.lines[a].as_str().unicode_len();
        let mid = String::from_str(self.lines[a].as_str().substring_char(0, self.cursor)).concat(
            s,
        );
        let new_cursor = mid.as_str().unicode_len();
        let new_line = mid.concat(self.lines[a].as_str().substring_char(self.cursor, n));
        self.lines[a] = new_line;
        self.cursor = new_cursor;
        proof {
            let target = insert_text_m(old(self)@, s@);
            assert(self@.lines =~~= target.lines);
            assert(self@ =~~= target);
        }
    }

    /// Cuts the active line at the cursor; the suffix becomes a new line
    /// below, which becomes active with the cursor at its start.
    pub fn split_line(&mut self)
        requires
            old(self)@.wf(),
        ensures
            final(self)@ == split_line_m(old(self)@),
            final(self)@.wf(),
    {
        let a = self.active_line;
        let line_count = self.lines.len();
        let n = self.lines[a].as_str().unicode_len();
        let before = String::from_str(self.lines[a].as_str().substring_char(0, self.cursor));
        let after = String::from_str(self.lines[a].as_str().substring_char(self.cursor, n));
        self.lines[a] = before;
        self.lines.insert(a + 1, after);
        self.active_line = a + 1;
        self.cursor = 0;
        proof {
            let target = split_line_m(old(self)@);
            assert(self@.lines =~~= target.lines);
            assert(self@ =~~= target);
        }
    }

    /// Appends the active line's content onto the previous line, removes the
    /// active line, and lands the cursor at the merge point — exactly where
    /// the removed line break used to be.
    pub fn merge_with_previous(&mut self)
        requires
            old(self)@.wf(),
            old(self)@.active > 0,
        ensures
            final(self)@ == merge_prev_m(old(self)@),
            final(self)@.wf(),
    {
        let a = self.active_line;
        let prev_len = self.lines[a - 1].as_str().unicode_len();
        let tail = self.lines.remove(a);
        let prev = self.lines.remove(a - 1);
        let merged = prev.concat(tail.as_str());
        self.lines.insert(a - 1, merged);
        self.active_line = a - 1;
        self.cursor = prev_len;
        proof {
            let target = merge_prev_m(old(self)@);
            assert(self@.lines =~~= target.lines);
            assert(self@ =~~= target);
        }
    }

    /// Removes one character before the cursor; at the start of a line this
    /// merges with the previous line instead, and at the very start of the
    /// buffer nothing happens.
    pub fn delete_char_before(&mut self)
        requires
            old(self)@.wf(),
        ensures
            final(self)@ == delete_before_m(old(self)@),
            final(self)@.wf(),
    {
        if self.cursor > 0 {
            let a = self.active_line;
            let n = self.lines[a].as_str().unicode_len();
            let new_cursor = self.cursor - 1;
            let new_line = String::from_str(
                self.lines[a].as_str().substring_char(0, new_cursor),
            ).concat(self.lines[a].as_str().substring_char(self.cursor, n));
            self.lines[a] = new_line;
            self.cursor = new_cursor;
            proof {
                let target = delete_before_m(old(self)@);
                assert(self@.lines =~~= target.lines);
                assert(self@ =~~= target);
            }
        } else if self.active_line > 0 {
            self.merge_with_previous();
        }
    }

    /// Removes one character after the cursor; at the end of a line this
    /// merges the next line onto the active one (the cursor does not move),
    /// and at the very end of the buffer nothing happens.
    pub fn delete_char_after(&mut self)
        requires
            old(self)@.wf(),
        ensures
            final(self)@ == delete_after_m(old(self)@),
            final(self)@.wf(),
    {
        let a = self.active_line;
        let line_count = self.lines.len();
        let n = self.lines[a].as_str().unicode_len();
        if self.cursor < n {
            let new_line = String::from_str(
                self.lines[a].as_str().substring_char(0, self.cursor),
            ).concat(self.lines[a].as_str().substring_char(self.cursor + 1, n));
            self.lines[a] = new_line;
            proof {
                let target = delete_after_m(old(self)@);
                assert(self@.lines =~~= target.lines);
                assert(self@ =~~= target);
            }
        } else if a + 1 < line_count {
            let next = self.lines.remove(a + 1);
            let cur = self.lines.remove(a);
            let merged = cur.concat(next.as_str());
            self.lines.insert(a, merged);
            proof {
                let target = delete_after_m(old(self)@);
                assert(self@.lines =~~= target.lines);
                assert(self@ =~~= target);
            }
        }
    }

    /// Moves the cursor one position left; from the start of a line it lands
    /// at the end of the previous line.
    pub fn move_left(&mut self)
        requires
            old(self)@.wf(),
        ensures
            final(self)@ == move_left_m(old(self)@),
            final(self)@.wf(),
    {
        if self.cursor > 0 {
            self.cursor = self.cursor - 1;
        } else if self.active_line > 0 {
            let prev_len = self.lines[self.active_line - 1].as_str().unicode_len();
            self.active_line = self.active_line - 1;
            self.cursor = prev_len;
        }
        proof {
            assert(self@ =~~= move_left_m(old(self)@));
        }
    }

    /// Moves the cursor one position right; from the end of a line it lands
    /// at the start of the next line.
    pub fn move_right(&mut self)
        requires
            old(self)@.wf(),
        ensures
            final(self)@ == move_right_m(old(self)@),
            final(self)@.wf(),
    {
        let a = self.active_line;
        let line_count = self.lines.len();
        let n = self.lines[a].as_str().unicode_len();
        if self.cursor < n {
            self.cursor = self.cursor + 1;
        } else if a + 1 < line_count {
            self.active_line = a + 1;
            self.cursor = 0;
        }
        proof {
            assert(self@ =~~= move_right_m(old(self)@));
        }
    }

    /// Moves to the previous line, resetting the cursor to column 0.
    pub fn move_up(&mut self)
        requires
            old(self)@.wf(),
        ensures
            final(self)@ == move_up_m(old(self)@),
            final(self)@.wf(),
    {
        if self.active_line > 0 {
            self.active_line = self.active_line - 1;
            self.cursor = 0;
        }
        proof {
            assert(self@ =~~= move_up_m(old(self)@));
        }
    }

    /// Moves to the next line, resetting the cursor to column 0.
    pub fn move_down(&mut self)
        requires
            old(self)@.wf(),
        ensures
            final(self)@ == move_down_m(old(self)@),
            final(self)@.wf(),
    {
        let line_count = self.lines.len();
        if self.active_line + 1 < line_count {
            self.active_line = self.active_line + 1;
            self.cursor = 0;
        }
        proof {
            assert(self@ =~~= move_down_m(old(self)@));
        }
    }

    /// Moves the cursor to the start of the active line.
    pub fn move_home(&mut self)
        requires
            old(self)@.wf(),
        ensures
            final(self)@ == move_home_m(old(self)@),
            final(self)@.wf(),
    {
        self.cursor = 0;
        proof {
            assert(self@ =~~= move_home_m(old(self)@));
        }
    }

    /// Moves the cursor to the end of the active line.
    pub fn move_end(&mut self)
        requires
            old(self)@.wf(),
        ensures
            final(self)@ == move_end_m(old(self)@),
            final(self)@.wf(),
    {
        let a = self.active_line;
        self.cursor = self.lines[a].as_str().unicode_len();
        proof {
            assert(self@ =~~= move_end_m(old(self)@));
        }
    }

    /// Makes `index` the active line with the cursor at column 0, as a click
    /// on a rendered line does; out-of-range indices change nothing.
    pub fn set_active_line(&mut self, index: usize)
        requires
            old(self)@.wf(),
        ensures
            final(self)@ == set_active_m(old(self)@, index as int),
            final(self)@.wf(),
    {
        if index < self.lines.len() {
            self.active_line = index;
            self.cursor = 0;
        }
        proof {
            assert(self@ =~~= set_active_m(old(self)@, index as int));
        }
    }

    /// Pastes `payload` at the cursor, splitting it on newlines into new
    /// lines as described by [`paste_m`].
    pub fn paste(&mut self, payload: &str)
        requires
            old(self)@.wf(),
        ensures
            final(self)@ == paste_m(old(self)@, payload@),
            final(self)@.wf(),
    {
        let chunks = split_newlines(payload);
        let ghost chunksv = split_nl(payload@);
        let a = self.active_line;
        let n = self.lines[a].as_str().unicode_len();
        let before = String::from_str(self.lines[a].as_str().substring_char(0, self.cursor));
        let after = String::from_str(self.lines[a].as_str().substring_char(self.cursor, n));
        if chunks.len() == 1 {
            let mid = before.concat(chunks[0].as_str());
            let new_cursor = mid.as_str().unicode_len();
            let new_line = mid.concat(after.as_str());
            self.lines[a] = new_line;
            self.cursor = new_cursor;
            proof {
                let target = paste_m(old(self)@, payload@);
                let line = old(self)@.active_text();
                let cur = old(self)@.cursor;
                assert(no_newline(old(self)@.lines[old(self)@.active]));
                lemma_split_nl_chunks_newline_free(payload@);
                assert(no_newline(chunksv[0]));
                lemma_no_newline_subrange(line, 0, cur);
                lemma_no_newline_subrange(line, cur, line.len() as int);
                lemma_no_newline_concat(line.take(cur), chunksv[0]);
                lemma_no_newline_concat(line.take(cur) + chunksv[0], line.skip(cur));
                lemma_update_keeps_newline_free(
                    old(self)@.lines,
                    old(self)@.active,
                    line.take(cur) + chunksv[0] + line.skip(cur),
                );
                assert(self@.lines =~~= target.lines);
                assert(self@ =~~= target);
            }
        } else {
            let ghost old_lines = old(self)@.lines;
            let first_line = before.concat(chunks[0].as_str());
            self.lines[a] = first_line;
            let last_index = chunks.len() - 1;
            let mut i: usize = 1;
            while i < last_index
                invariant
                    old(self)@.wf(),
                    1 <= i <= last_index,
                    chunks.deep_view() == chunksv,
                    chunks.len() == chunksv.len(),
                    last_index == chunksv.len() - 1,
                    chunksv.len() >= 2,
                    a == old(self)@.active,
                    a < old_lines.len(),
                    old_lines == old(self)@.lines,
                    self.lines.deep_view().len() == old_lines.len() + i - 1,
                    self.lines.deep_view() =~~= old_lines.take(a as int) + seq![
                        old_lines[a as int].take(old(self)@.cursor) + chunksv.first(),
                    ] + chunksv.subrange(1, i as int) + old_lines.skip(a + 1),
                decreases last_index - i,
            {
                let ghost lines_before = self.lines.deep_view();
                let cur_len = self.lines.len();
                proof {
                    assert(a + i <= cur_len);
                }
                self.lines.insert(a + i, chunks[i].clone());
                proof {
                    assert(self.lines.deep_view() =~~= lines_before.insert(
                        a + i,
                        chunksv[i as int],
                    ));
                    assert(self.lines.deep_view() =~~= old_lines.take(a as int) + seq![
                        old_lines[a as int].take(old(self)@.cursor) + chunksv.first(),
                    ] + chunksv.subrange(1, i + 1) + old_lines.skip(a + 1));
                }
                i = i + 1;
            }
            let ghost lines_before = self.lines.deep_view();
            let cur_len = self.lines.len();
            proof {
                assert(a + last_index <= cur_len);
            }
            let last = chunks[last_index].clone();
            let new_cursor = last.as_str().unicode_len();
            let last_line = last.concat(after.as_str());
            self.lines.insert(a + last_index, last_line);
            self.active_line = a + last_index;
            self.cursor = new_cursor;
            proof {
                let target = paste_m(old(self)@, payload@);
                assert(self.lines.deep_view() =~~= lines_before.insert(
                    a + last_index,
                    chunksv.last() + old_lines[a as int].skip(old(self)@.cursor),
                ));
                assert(self@.lines =~~= target.lines);
                let line = old(self)@.active_text();
                let cur = old(self)@.cursor;
                assert(no_newline(old(self)@.lines[old(self)@.active]));
                lemma_split_nl_chunks_newline_free(payload@);
                assert(no_newline(chunksv[0]));
                assert(no_newline(chunksv[chunksv.len() - 1]));
                lemma_no_newline_subrange(line, 0, cur);
                lemma_no_newline_subrange(line, cur, line.len() as int);
                lemma_no_newline_concat(line.take(cur), chunksv.first());
                lemma_no_newline_concat(chunksv.last(), line.skip(cur));
                let block = seq![line.take(cur) + chunksv.first()] + chunksv.subrange(
                    1,
                    chunksv.len() - 1,
                ) + seq![chunksv.last() + line.skip(cur)];
                assert forall|k: int| 0 <= k < block.len() implies no_newline(block[k]) by {
                    if k == 0 {
                        assert(block[k] == line.take(cur) + chunksv.first());
                    } else if k < block.len() - 1 {
                        assert(block[k] == chunksv[k]);
                        assert(no_newline(chunksv[k]));
                    } else {
                        assert(block[k] == chunksv.last() + line.skip(cur));
                    }
                }
                lemma_replace_keeps_newline_free(
                    old(self)@.lines,
                    old(self)@.active,
                    old(self)@.active + 1,
                    block,
                );
                assert(target.lines =~~= old(self)@.lines.take(old(self)@.active) + block + old(
                    self,
                )@.lines.skip(old(self)@.active + 1));
                assert(self@ =~~= target);
            }
        }
    }

    /// The buffer's content as one string: the lines joined with `'\n'`.
    pub fn joined_content(&self) -> (r: String)
        ensures
            r@ == joined(self@.lines),
    {
        join_lines(&self.lines)
    }

    /// The number of lines.
    pub fn line_count(&self) -> (n: usize)
        ensures
            n == self@.lines.len(),
    {
        self.lines.len()
    }

    /// The active line's index.
    pub fn active_index(&self) -> (a: usize)
        ensures
            a == self@.active,
    {
        self.active_line
    }

    /// The cursor position within the active line, counted in Unicode
    /// scalar values.
    pub fn cursor_position(&self) -> (c: usize)
        ensures
            c == self@.cursor,
    {
        self.cursor
    }

    /// The text of line `index`.
    pub fn line_at(&self, index: usize) -> (line: &String)
        requires
            index < self@.lines.len(),
        ensures
            line@ == self@.lines[index as int],
    {
        &self.lines[index]
    }

    /// A read-only snapshot of the lines, the active line index and the
    /// cursor, for rendering.
    pub fn snapshot(&self) -> (snap: (Vec<String>, usize, usize))
        ensures
            snap.0.deep_view() == self@.lines,
            snap.1 == self@.active,
            snap.2 == self@.cursor,
    {
        let lines = self.lines.clone();
        proof {
            broadcast use vstd::std_specs::vec::vec_clone_deep_view_proof;

            assert(lines.deep_view() =~~= self@.lines);
        }
        (lines, self.active_line, self.cursor)
    }
}

/// Applying [`delete_before_m`] `k` times in a row.
pub open spec fn delete_before_iter_m(m: BufferModel, k: nat) -> BufferModel
    decreases k,
{
    if k == 0 {
        m
    } else {
        delete_before_iter_m(delete_before_m(m), (k - 1) as nat)
    }
}

/// Law: inserting a text at the cursor and then deleting one character
/// before the cursor once per inserted character restores the original
/// buffer exactly — line content and cursor position included.
pub proof fn lemma_insert_then_delete_restores(m: BufferModel, s: Seq<char>)
    requires
        m.wf(),
    ensures
        delete_before_iter_m(insert_text_m(m, s), s.len()) == m,
    decreases s.len(),
{
    let m1 = insert_text_m(m, s);
    if s.len() == 0 {
        assert(m1.lines =~~= m.lines);
        assert(m1 =~~= m);
    } else {
        let m2 = insert_text_m(m, s.drop_last());
        let line = m.lines[m.active];
        let l1 = line.take(m.cursor) + s + line.skip(m.cursor);
        assert(delete_before_m(m1).lines =~~= m2.lines) by {
            assert(m1.lines[m1.active] == l1);
            assert(l1.take(m.cursor + s.len() - 1) =~= line.take(m.cursor) + s.drop_last());
            assert(l1.skip(m.cursor + s.len()) =~= line.skip(m.cursor));
        }
        assert(delete_before_m(m1) =~~= m2);
        lemma_insert_then_delete_restores(m, s.drop_last());
    }
}

/// Law: pasting a payload without a newline is exactly an insertion — the
/// active line is reassembled around the payload, the cursor advances past
/// it, and no new line appears.
pub proof fn lemma_paste_without_newline_inserts(m: BufferModel, payload: Seq<char>)
    requires
        m.wf(),
        no_newline(payload),
    ensures
        paste_m(m, payload) == insert_text_m(m, payload),
{
    crate::text::lemma_split_nl_single(payload);
    assert(paste_m(m, payload) =~~= insert_text_m(m, payload));
}

/// Law: the submitted content — a well-formed buffer's lines joined with
/// `'\n'` — splits back on `'\n'` into exactly those lines, so a reader of
/// the delivered message sees the very lines that were composed.
pub proof fn lemma_submitted_content_restores_lines(m: BufferModel)
    requires
        m.wf(),
    ensures
        split_nl(joined(m.lines)) == m.lines,
{
    crate::text::lemma_join_then_split_restores(m.lines);
}

/// Law: splitting the active line at the cursor and then merging with the
/// previous line from the resulting position restores the original buffer
/// exactly — the single line and the cursor offset included.
pub proof fn lemma_split_then_merge_restores(m: BufferModel)
    requires
        m.wf(),
    ensures
        merge_prev_m(split_line_m(m)) == m,
{
    let m1 = split_line_m(m);
    let line = m.lines[m.active];
    assert(m1.lines[m1.active - 1] == line.take(m.cursor));
    assert(m1.lines[m1.active] == line.skip(m.cursor));
    assert(merge_prev_m(m1).lines =~~= m.lines) by {
        assert(line.take(m.cursor) + line.skip(m.cursor) =~= line);
    }
    assert(merge_prev_m(m1) =~~= m);
}

} // verus!
