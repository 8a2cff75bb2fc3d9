//! The edit engine: applies editing commands to the line store and keeps
//! the cursor consistent with it.  Every operation is described by a
//! transition on an abstract buffer state.

use vstd::prelude::*;
use vstd::string::StringExecFns;

use crate::file::{joined, EditorError, FileController};
use crate::position::{moved, moved_n, row_len_at, CursorController, MoveKey};
use crate::words::{
    first_word_len, is_ws, last_word_len, scan_first_word_len, scan_last_word_len,
    scan_trailing_ws, scan_word_start, strip_trailing_ws,
};
use crate::writing::StatusMessage;

verus! {

/// How often a quit with unsaved changes must be confirmed before the
/// editor actually exits.
pub const MAX_QUIT_ATTEMPTS: u64 = 3;

/// The abstract state every edit operates on: the rows' logical contents,
/// the logical cursor, and the count of unsaved edits.
pub struct BufferState {
    pub rows: Seq<Seq<char>>,
    pub cursor_x: nat,
    pub cursor_y: nat,
    pub dirty: nat,
}

impl BufferState {
    /// The cursor invariant: the row is at most one past the last row, the
    /// column within the row's content, and 0 on the virtual past-the-end
    /// row.
    pub open spec fn wf(self) -> bool {
        &&& self.cursor_y <= self.rows.len()
        &&& (self.cursor_y < self.rows.len() ==> self.cursor_x <= self.rows[
            self.cursor_y as int
        ].len())
        &&& (self.cursor_y == self.rows.len() ==> self.cursor_x == 0)
    }
}

/// The dirty counter grows by one per content-changing operation, and
/// stays put at its ceiling rather than wrap.
pub open spec fn bump_dirty(d: nat) -> nat {
    if d < u64::MAX {
        d + 1
    } else {
        d
    }
}

/// What one `insert_char` does.  On the virtual past-the-end row a fresh
/// row is created.  When the insertion would put the cursor at or past
/// `width - 1`, the row wraps: a whitespace character opens an empty row
/// below; otherwise the trailing word (with the inserted character) moves
/// to the new row, unless the row is a single unbroken word, in which case
/// the insertion is plain.
pub open spec fn insert_step(s: BufferState, ch: char, width: nat) -> BufferState {
    if s.cursor_y == s.rows.len() {
        BufferState {
            rows: s.rows.push(seq![ch]),
            cursor_x: s.cursor_x + 1,
            cursor_y: s.cursor_y,
            dirty: bump_dirty(s.dirty),
        }
    } else {
        let y = s.cursor_y as int;
        let r = s.rows[y].insert(s.cursor_x as int, ch);
        if s.cursor_x + 1 >= width {
            if is_ws(ch) {
                BufferState {
                    rows: s.rows.update(y, r).insert(y + 1, Seq::empty()),
                    cursor_x: 0,
                    cursor_y: s.cursor_y + 1,
                    dirty: bump_dirty(s.dirty),
                }
            } else {
                let wl = last_word_len(r);
                if wl < r.len() {
                    let stripped = strip_trailing_ws(r);
                    let word = stripped.skip(stripped.len() - wl);
                    BufferState {
                        rows: s.rows.update(y, r.take(r.len() - wl)).insert(y + 1, word),
                        cursor_x: wl,
                        cursor_y: s.cursor_y + 1,
                        dirty: bump_dirty(s.dirty),
                    }
                } else {
                    BufferState {
                        rows: s.rows.update(y, r),
                        cursor_x: s.cursor_x + 1,
                        cursor_y: s.cursor_y,
                        dirty: bump_dirty(s.dirty),
                    }
                }
            }
        } else {
            BufferState {
                rows: s.rows.update(y, r),
                cursor_x: s.cursor_x + 1,
                cursor_y: s.cursor_y,
                dirty: bump_dirty(s.dirty),
            }
        }
    }
}

/// What `insert_newline` does: at column 0 an empty row appears above the
/// cursor's row; otherwise the row splits at the cursor.  The cursor moves
/// to column 0 one row down either way.
pub open spec fn newline_step(s: BufferState) -> BufferState {
    let y = s.cursor_y as int;
    let rows = if s.cursor_x == 0 {
        s.rows.insert(y, Seq::empty())
    } else {
        s.rows.update(y, s.rows[y].take(s.cursor_x as int)).insert(
            y + 1,
            s.rows[y].skip(s.cursor_x as int),
        )
    };
    BufferState {
        rows,
        cursor_x: 0,
        cursor_y: s.cursor_y + 1,
        dirty: bump_dirty(s.dirty),
    }
}

/// What one single-character delete does: nothing on the virtual
/// past-the-end row or at the very start of the buffer; within a row the
/// character before the cursor disappears; at column 0 the row joins into
/// the previous one and the cursor lands at the seam.
pub open spec fn delete_step(s: BufferState) -> BufferState {
    if s.cursor_y == s.rows.len() || (s.cursor_x == 0 && s.cursor_y == 0) {
        s
    } else {
        let y = s.cursor_y as int;
        if s.cursor_x > 0 {
            BufferState {
                rows: s.rows.update(y, s.rows[y].remove(s.cursor_x - 1)),
                cursor_x: (s.cursor_x - 1) as nat,
                cursor_y: s.cursor_y,
                dirty: bump_dirty(s.dirty),
            }
        } else {
            BufferState {
                rows: s.rows.update(y - 1, s.rows[y - 1] + s.rows[y]).remove(y),
                cursor_x: s.rows[y - 1].len(),
                cursor_y: (s.cursor_y - 1) as nat,
                dirty: bump_dirty(s.dirty),
            }
        }
    }
}

/// `n` single-character deletes in a row.
pub open spec fn delete_n(s: BufferState, n: nat) -> BufferState
    decreases n,
{
    if n == 0 {
        s
    } else {
        delete_step(delete_n(s, (n - 1) as nat))
    }
}

/// How many single-character deletes a word-wise delete performs: the last
/// word before the cursor plus its separating boundary, or a single step
/// when no word precedes the cursor on the row.
pub open spec fn word_delete_count(s: BufferState) -> nat {
    if s.cursor_x == 0 {
        1
    } else {
        let w = last_word_len(s.rows[s.cursor_y as int].take(s.cursor_x as int));
        if w == 0 {
            1
        } else {
            w + 1
        }
    }
}

/// A cursor movement command, paging included.
#[derive(Clone, Copy, Debug, PartialEq, Eq, Structural)]
pub enum CursorMove {
    Up,
    Down,
    Left,
    Right,
    Home,
    End,
    PageUp,
    PageDown,
}

/// The single step a movement command repeats: paging repeats Up or Down,
/// everything else repeats itself.
pub open spec fn single_key(key: CursorMove) -> MoveKey {
    match key {
        CursorMove::Up => MoveKey::Up,
        CursorMove::Down => MoveKey::Down,
        CursorMove::Left => MoveKey::Left,
        CursorMove::Right => MoveKey::Right,
        CursorMove::Home => MoveKey::Home,
        CursorMove::End => MoveKey::End,
        CursorMove::PageUp => MoveKey::Up,
        CursorMove::PageDown => MoveKey::Down,
    }
}

pub open spec fn min_nat(a: nat, b: nat) -> nat {
    if a <= b {
        a
    } else {
        b
    }
}

/// How many single steps a non-paging movement performs: several in word
/// mode (the next or previous word on the row, or a fixed vertical hop),
/// one otherwise.  Word-wise movement is row-local: at a row boundary it
/// degrades to a single step.
pub open spec fn word_step_count(s: BufferState, key: CursorMove, word: bool) -> nat {
    if !word || s.cursor_y >= s.rows.len() {
        1
    } else {
        let row = s.rows[s.cursor_y as int];
        match key {
            CursorMove::Up => 5,
            CursorMove::Down => 5,
            CursorMove::Right => if s.cursor_x >= row.len() {
                1
            } else {
                let w = first_word_len(row.skip(s.cursor_x as int));
                if w == 0 {
                    1
                } else {
                    w + 1
                }
            },
            CursorMove::Left => if s.cursor_x == 0 {
                1
            } else {
                let w = last_word_len(row.take(s.cursor_x as int));
                if w == 0 {
                    1
                } else {
                    w + 1
                }
            },
            _ => 1,
        }
    }
}

/// Where a movement command puts the cursor: paging first jumps to the
/// window edge (held within the buffer) and then steps one viewport height;
/// anything else repeats its single step `word_step_count` times.
pub open spec fn move_result(
    s: BufferState,
    row_offset: nat,
    height: nat,
    key: CursorMove,
    word: bool,
) -> (nat, nat) {
    if key == CursorMove::PageUp {
        moved_n(
            MoveKey::Up,
            s.cursor_x,
            min_nat(row_offset, s.rows.len()),
            s.rows,
            height,
        )
    } else if key == CursorMove::PageDown {
        moved_n(
            MoveKey::Down,
            s.cursor_x,
            min_nat((row_offset + height - 1) as nat, s.rows.len()),
            s.rows,
            height,
        )
    } else {
        moved_n(
            single_key(key),
            s.cursor_x,
            s.cursor_y,
            s.rows,
            word_step_count(s, key, word),
        )
    }
}

/// The single-step transitions preserve the cursor invariant.
pub proof fn lemma_steps_preserve_wf(s: BufferState, ch: char, width: nat)
    requires
        s.wf(),
    ensures
        insert_step(s, ch, width).wf(),
        newline_step(s).wf(),
        delete_step(s).wf(),
{
    if s.cursor_y < s.rows.len() {
        let y = s.cursor_y as int;
        let r = s.rows[y].insert(s.cursor_x as int, ch);
        crate::words::lemma_last_word_le(r);
    }
}

/// All the editor's moving parts, wired together: the line store, the
/// cursor/viewport, the status message, and the dirty and
/// quit-confirmation counters.
pub struct Controllers {
    pub cursor_ctrlr: CursorController,
    pub file_ctrlr: FileController,
    pub status_msg: StatusMessage,
    pub dirty: u64,
    pub quit_attempts: u64,
}

impl Controllers {
    /// The abstract buffer state this editor is in.
    pub open spec fn abs(&self) -> BufferState {
        BufferState {
            rows: self.file_ctrlr.row_contents(),
            cursor_x: self.cursor_ctrlr.cursor_x as nat,
            cursor_y: self.cursor_ctrlr.cursor_y as nat,
            dirty: self.dirty as nat,
        }
    }

    pub open spec fn wf(&self) -> bool {
        &&& self.file_ctrlr.wf()
        &&& self.cursor_ctrlr.wf()
        &&& self.status_msg.wf()
        &&& self.abs().wf()
    }

    /// The viewport geometry and scroll state is untouched.
    pub open spec fn same_viewport(&self, other: &Controllers) -> bool {
        &&& self.cursor_ctrlr.editor_height == other.cursor_ctrlr.editor_height
        &&& self.cursor_ctrlr.editor_width == other.cursor_ctrlr.editor_width
        &&& self.cursor_ctrlr.row_offset == other.cursor_ctrlr.row_offset
        &&& self.cursor_ctrlr.column_offset == other.cursor_ctrlr.column_offset
        &&& self.cursor_ctrlr.render_x == other.cursor_ctrlr.render_x
    }

    /// The status message, quit counter and file name are untouched.
    pub open spec fn same_meta(&self, other: &Controllers) -> bool {
        &&& self.status_msg == other.status_msg
        &&& self.quit_attempts == other.quit_attempts
        &&& self.file_ctrlr.filename == other.file_ctrlr.filename
    }

    /// A fresh editor over the given line store, for a `(columns, rows)`
    /// text area, with the standard help message shown from `now_ms` on.
    pub fn new(win_size: (usize, usize), file_ctrlr: FileController, now_ms: u64) -> (ed:
        Controllers)
        requires
            win_size.0 >= 1,
            win_size.1 >= 1,
            file_ctrlr.wf(),
        ensures
            ed.wf(),
            ed.abs().rows == file_ctrlr.row_contents(),
            ed.abs().cursor_x == 0 && ed.abs().cursor_y == 0 && ed.abs().dirty == 0,
            ed.quit_attempts == 0,
            ed.file_ctrlr.filename == file_ctrlr.filename,
            ed.cursor_ctrlr.editor_height == win_size.1,
            ed.status_msg.message matches Some(m) && m@ == "Help: Ctrl+S = Save / Ctrl+C = Quit"@,
    {
        Controllers {
            cursor_ctrlr: CursorController::new(win_size),
            file_ctrlr,
            status_msg: StatusMessage::new(
                String::from_str("Help: Ctrl+S = Save / Ctrl+C = Quit"),
                now_ms,
            ),
            dirty: 0,
            quit_attempts: 0,
        }
    }

    fn bump_dirty_counter(&mut self)
        ensures
            final(self).dirty as nat == bump_dirty(old(self).dirty as nat),
            final(self).cursor_ctrlr == old(self).cursor_ctrlr,
            final(self).file_ctrlr == old(self).file_ctrlr,
            final(self).same_meta(old(self)),
    {
        if self.dirty < u64::MAX {
            self.dirty = self.dirty + 1;
        }
    }

    /// Inserts `ch` at the cursor, wrapping the row's trailing word onto a
    /// fresh row when the viewport width is reached, and advances the
    /// cursor.  Counts as one unsaved edit.
    pub fn insert_char(&mut self, ch: char)
        requires
            old(self).wf(),
        ensures
            final(self).wf(),
            final(self).abs() == insert_step(
                old(self).abs(),
                ch,
                old(self).cursor_ctrlr.editor_width as nat,
            ),
            final(self).same_viewport(old(self)),
            final(self).same_meta(old(self)),
    {
        proof {
            lemma_steps_preserve_wf(
                self.abs(),
                ch,
                self.cursor_ctrlr.editor_width as nat,
            );
        }
        let y = self.cursor_ctrlr.cursor_y;
        let x = self.cursor_ctrlr.cursor_x;
        if y == self.file_ctrlr.count_rows() {
            self.file_ctrlr.insert_row(y, Vec::new());
            self.file_ctrlr.row_insert_char(y, x, ch);
            self.cursor_ctrlr.cursor_x = x + 1;
            proof {
                assert(self.abs().rows =~~= old(self).abs().rows.push(seq![ch]));
            }
        } else if x >= self.cursor_ctrlr.editor_width - 1 {
            self.file_ctrlr.row_insert_char(y, x, ch);
            let ghost r = self.file_ctrlr.row_contents()[y as int];
            if ch == ' ' || ch == '\t' {
                self.file_ctrlr.insert_row(y + 1, Vec::new());
                self.cursor_ctrlr.cursor_x = 0;
                self.cursor_ctrlr.cursor_y = y + 1;
                proof {
                    assert(self.abs().rows =~~= old(self).abs().rows.update(y as int, r).insert(
                        y + 1,
                        Seq::<char>::empty(),
                    ));
                }
            } else {
                let r_len = self.file_ctrlr.get_editor_row(y).len();
                let j = scan_trailing_ws(&self.file_ctrlr.get_editor_row(y).content, r_len);
                let k = scan_word_start(&self.file_ctrlr.get_editor_row(y).content, j);
                let wl = j - k;
                proof {
                    assert(r.take(r_len as int) =~= r);
                    assert(wl == last_word_len(r));
                }
                if wl < r_len {
                    let mut word: Vec<char> = Vec::new();
                    let mut p: usize = k;
                    while p < j
                        invariant
                            k <= p <= j,
                            y < self.file_ctrlr.rows@.len(),
                            j <= self.file_ctrlr.row_contents()[y as int].len(),
                            self.file_ctrlr.row_contents()[y as int] == r,
                            word@ == r.subrange(k as int, p as int),
                        decreases j - p,
                    {
                        let c = self.file_ctrlr.get_editor_row(y).content[p];
                        proof {
                            assert(r.subrange(k as int, p + 1) =~= r.subrange(
                                k as int,
                                p as int,
                            ).push(c));
                        }
                        word.push(c);
                        p += 1;
                    }
                    self.file_ctrlr.row_truncate(y, r_len - wl);
                    proof {
                        assert(self.file_ctrlr.row_contents().len() == old(
                            self,
                        ).file_ctrlr.row_contents().len());
                        assert(y < self.file_ctrlr.rows@.len());
                    }
                    self.cursor_ctrlr.cursor_x = wl;
                    self.cursor_ctrlr.cursor_y = y + 1;
                    self.file_ctrlr.insert_row(y + 1, word);
                    proof {
                        let stripped = strip_trailing_ws(r);
                        assert(word@ =~= stripped.skip(stripped.len() - wl));
                        assert(self.abs().rows =~~= old(self).abs().rows.update(
                            y as int,
                            r.take(r.len() - wl),
                        ).insert(y + 1, stripped.skip(stripped.len() - wl)));
                    }
                } else {
                    self.cursor_ctrlr.cursor_x = x + 1;
                    proof {
                        assert(self.abs().rows =~~= old(self).abs().rows.update(y as int, r));
                    }
                }
            }
        } else {
            self.file_ctrlr.row_insert_char(y, x, ch);
            let new_len = self.file_ctrlr.get_editor_row(y).len();
            proof {
                assert(x + 1 <= new_len);
            }
            self.cursor_ctrlr.cursor_x = x + 1;
            proof {
                assert(self.abs().rows =~~= old(self).abs().rows.update(
                    y as int,
                    old(self).abs().rows[y as int].insert(x as int, ch),
                ));
            }
        }
        self.bump_dirty_counter();
    }

    /// Breaks the line at the cursor (or opens an empty row above it when
    /// the cursor is at column 0) and puts the cursor at the start of the
    /// row below.  Counts as one unsaved edit.
    pub fn insert_newline(&mut self)
        requires
            old(self).wf(),
        ensures
            final(self).wf(),
            final(self).abs() == newline_step(old(self).abs()),
            final(self).same_viewport(old(self)),
            final(self).same_meta(old(self)),
    {
        proof {
            lemma_steps_preserve_wf(self.abs(), ' ', 0);
        }
        let y = self.cursor_ctrlr.cursor_y;
        let x = self.cursor_ctrlr.cursor_x;
        if x == 0 {
            self.file_ctrlr.insert_row(y, Vec::new());
            proof {
                assert(self.abs().rows =~~= old(self).abs().rows.insert(
                    y as int,
                    Seq::<char>::empty(),
                ));
            }
        } else {
            let ghost r = self.file_ctrlr.row_contents()[y as int];
            let row_len = self.file_ctrlr.get_editor_row(y).len();
            let mut tail: Vec<char> = Vec::new();
            let mut p: usize = x;
            while p < row_len
                invariant
                    x <= p <= row_len,
                    y < self.file_ctrlr.rows@.len(),
                    row_len == self.file_ctrlr.row_contents()[y as int].len(),
                    self.file_ctrlr.row_contents()[y as int] == r,
                    tail@ == r.subrange(x as int, p as int),
                decreases row_len - p,
            {
                let c = self.file_ctrlr.get_editor_row(y).content[p];
                proof {
                    assert(r.subrange(x as int, p + 1) =~= r.subrange(x as int, p as int).push(
                        c,
                    ));
                }
                tail.push(c);
                p += 1;
            }
            proof {
                assert(tail@ =~= r.skip(x as int));
            }
            self.file_ctrlr.row_truncate(y, x);
            proof {
                assert(self.file_ctrlr.row_contents().len() == old(
                    self,
                ).file_ctrlr.row_contents().len());
                assert(y < self.file_ctrlr.rows.len());
            }
            self.file_ctrlr.insert_row(y + 1, tail);
            proof {
                assert(self.abs().rows =~~= old(self).abs().rows.update(
                    y as int,
                    r.take(x as int),
                ).insert(y + 1, r.skip(x as int)));
            }
        }
        let new_count = self.file_ctrlr.count_rows();
        proof {
            assert(y + 1 <= new_count);
        }
        self.cursor_ctrlr.cursor_x = 0;
        self.cursor_ctrlr.cursor_y = y + 1;
        self.bump_dirty_counter();
    }

    /// One single-character delete: removes the character before the
    /// cursor, or joins the row into the previous one at column 0; a no-op
    /// on the virtual past-the-end row and at the start of the buffer.
    fn delete_once(&mut self)
        requires
            old(self).wf(),
        ensures
            final(self).wf(),
            final(self).abs() == delete_step(old(self).abs()),
            final(self).same_viewport(old(self)),
            final(self).same_meta(old(self)),
    {
        proof {
            lemma_steps_preserve_wf(self.abs(), ' ', 0);
        }
        let y = self.cursor_ctrlr.cursor_y;
        let x = self.cursor_ctrlr.cursor_x;
        if y == self.file_ctrlr.count_rows() || (x == 0 && y == 0) {
            return ;
        }
        if x > 0 {
            self.cursor_ctrlr.cursor_x = x - 1;
            self.file_ctrlr.row_delete_char(y, x - 1);
            proof {
                assert(self.abs().rows =~~= old(self).abs().rows.update(
                    y as int,
                    old(self).abs().rows[y as int].remove(x - 1),
                ));
            }
            self.bump_dirty_counter();
        } else {
            let prev_len = self.file_ctrlr.get_editor_row(y - 1).len();
            self.file_ctrlr.join_adjacent_rows(y);
            self.cursor_ctrlr.cursor_x = prev_len;
            self.cursor_ctrlr.cursor_y = y - 1;
            proof {
                assert(self.abs().rows =~~= old(self).abs().rows.update(
                    y - 1,
                    old(self).abs().rows[y - 1] + old(self).abs().rows[y as int],
                ).remove(y as int));
            }
            self.bump_dirty_counter();
        }
    }

    /// Deletes before the cursor: one character, or, in word mode, the
    /// whole previous word on the row (its boundary included) by repeated
    /// single-character deletes.
    pub fn delete_char(&mut self, word_mode: bool)
        requires
            old(self).wf(),
        ensures
            final(self).wf(),
            !word_mode ==> final(self).abs() == delete_step(old(self).abs()),
            word_mode ==> final(self).abs() == delete_n(
                old(self).abs(),
                word_delete_count(old(self).abs()),
            ),
            final(self).same_viewport(old(self)),
            final(self).same_meta(old(self)),
    {
        if !word_mode {
            self.delete_once();
            return ;
        }
        let x = self.cursor_ctrlr.cursor_x;
        proof {
            let s = old(self).abs();
            assert(delete_n(s, 0) == s);
            assert(delete_n(s, 1) == delete_step(s));
        }
        if x == 0 {
            self.delete_once();
            return ;
        }
        let y = self.cursor_ctrlr.cursor_y;
        let w = scan_last_word_len(&self.file_ctrlr.get_editor_row(y).content, x);
        if w == 0 {
            self.delete_once();
            return ;
        }
        // The word itself plus the separating boundary: w + 1 single
        // deletes in all.
        let ghost s0 = self.abs();
        self.delete_once();
        let mut i: usize = 0;
        while i < w
            invariant
                i <= w,
                self.wf(),
                self.abs() == delete_n(s0, (i + 1) as nat),
                self.same_viewport(old(self)),
                self.same_meta(old(self)),
                s0 == old(self).abs(),
            decreases w - i,
        {
            self.delete_once();
            i += 1;
        }
    }

    /// `n` single movement steps in direction `mk`.
    fn repeat_move(&mut self, mk: MoveKey, n: usize)
        requires
            old(self).cursor_ctrlr.cursor_y <= old(self).file_ctrlr.rows@.len(),
        ensures
            (final(self).cursor_ctrlr.cursor_x as nat, final(self).cursor_ctrlr.cursor_y as nat)
                == moved_n(
                mk,
                old(self).cursor_ctrlr.cursor_x as nat,
                old(self).cursor_ctrlr.cursor_y as nat,
                old(self).file_ctrlr.row_contents(),
                n as nat,
            ),
            final(self).cursor_ctrlr.cursor_y <= final(self).file_ctrlr.rows@.len(),
            n > 0 ==> final(self).cursor_ctrlr.cursor_x as nat <= row_len_at(
                final(self).file_ctrlr.row_contents(),
                final(self).cursor_ctrlr.cursor_y as int,
            ),
            final(self).file_ctrlr == old(self).file_ctrlr,
            final(self).dirty == old(self).dirty,
            final(self).same_viewport(old(self)),
            final(self).same_meta(old(self)),
    {
        let ghost rows = self.file_ctrlr.row_contents();
        let ghost x0 = self.cursor_ctrlr.cursor_x as nat;
        let ghost y0 = self.cursor_ctrlr.cursor_y as nat;
        let mut i: usize = 0;
        while i < n
            invariant
                i <= n,
                (self.cursor_ctrlr.cursor_x as nat, self.cursor_ctrlr.cursor_y as nat)
                    == moved_n(mk, x0, y0, rows, i as nat),
                self.cursor_ctrlr.cursor_y <= self.file_ctrlr.rows@.len(),
                self.file_ctrlr == old(self).file_ctrlr,
                self.dirty == old(self).dirty,
                self.same_viewport(old(self)),
                self.same_meta(old(self)),
                rows == self.file_ctrlr.row_contents(),
                x0 == old(self).cursor_ctrlr.cursor_x as nat,
                y0 == old(self).cursor_ctrlr.cursor_y as nat,
            decreases n - i,
        {
            self.cursor_ctrlr.move_cursor(mk, &self.file_ctrlr);
            i += 1;
        }
    }

    /// Applies a movement command: paging first jumps to the window edge
    /// and then steps a whole viewport height; word mode hops to the
    /// next/previous word boundary on the current row (degrading to a
    /// single step at a row edge); everything else is a single step.
    pub fn move_cursor(&mut self, key: CursorMove, word: bool)
        requires
            old(self).wf(),
        ensures
            final(self).wf(),
            final(self).abs().rows == old(self).abs().rows,
            final(self).abs().dirty == old(self).abs().dirty,
            final(self).same_viewport(old(self)),
            final(self).same_meta(old(self)),
            (final(self).cursor_ctrlr.cursor_x as nat, final(self).cursor_ctrlr.cursor_y as nat)
                == move_result(
                old(self).abs(),
                old(self).cursor_ctrlr.row_offset as nat,
                old(self).cursor_ctrlr.editor_height as nat,
                key,
                word,
            ),
    {
        let count = self.file_ctrlr.count_rows();
        match key {
            CursorMove::PageUp => {
                let off = self.cursor_ctrlr.row_offset;
                let start = if off <= count {
                    off
                } else {
                    count
                };
                self.cursor_ctrlr.cursor_y = start;
                let h = self.cursor_ctrlr.editor_height;
                self.repeat_move(MoveKey::Up, h);
            },
            CursorMove::PageDown => {
                let off = self.cursor_ctrlr.row_offset;
                let h = self.cursor_ctrlr.editor_height;
                let start = if off > count {
                    count
                } else if h - 1 <= count - off {
                    off + (h - 1)
                } else {
                    count
                };
                proof {
                    assert(start as nat == min_nat((off + h - 1) as nat, count as nat));
                }
                self.cursor_ctrlr.cursor_y = start;
                self.repeat_move(MoveKey::Down, h);
            },
            _ => {
                let mk = match key {
                    CursorMove::Up => MoveKey::Up,
                    CursorMove::Down => MoveKey::Down,
                    CursorMove::Left => MoveKey::Left,
                    CursorMove::Right => MoveKey::Right,
                    CursorMove::Home => MoveKey::Home,
                    CursorMove::End => MoveKey::End,
                    CursorMove::PageUp => MoveKey::Up,
                    CursorMove::PageDown => MoveKey::Down,
                };
                let y = self.cursor_ctrlr.cursor_y;
                let x = self.cursor_ctrlr.cursor_x;
                if !word || y >= count {
                    self.repeat_move(mk, 1);
                } else {
                    match key {
                        CursorMove::Up | CursorMove::Down => {
                            self.repeat_move(mk, 5);
                        },
                        CursorMove::Right => {
                            let row_len = self.file_ctrlr.get_editor_row(y).len();
                            if x >= row_len {
                                self.repeat_move(mk, 1);
                            } else {
                                let w = scan_first_word_len(
                                    &self.file_ctrlr.get_editor_row(y).content,
                                    x,
                                );
                                if w == 0 {
                                    self.repeat_move(mk, 1);
                                } else {
                                    let ghost s0 = self.abs();
                                    self.repeat_move(mk, w);
                                    let ghost mid = (
                                        self.cursor_ctrlr.cursor_x as nat,
                                        self.cursor_ctrlr.cursor_y as nat,
                                    );
                                    self.repeat_move(mk, 1);
                                    proof {
                                        assert(moved_n(mk, mid.0, mid.1, s0.rows, 0) == mid);
                                        assert(moved_n(mk, mid.0, mid.1, s0.rows, 1) == moved(
                                            mk,
                                            mid.0,
                                            mid.1,
                                            s0.rows,
                                        ));
                                        assert(moved_n(mk, s0.cursor_x, s0.cursor_y, s0.rows, (
                                        w + 1) as nat) == moved(mk, mid.0, mid.1, s0.rows));
                                    }
                                }
                            }
                        },
                        CursorMove::Left => {
                            if x == 0 {
                                self.repeat_move(mk, 1);
                            } else {
                                let w = scan_last_word_len(
                                    &self.file_ctrlr.get_editor_row(y).content,
                                    x,
                                );
                                if w == 0 {
                                    self.repeat_move(mk, 1);
                                } else {
                                    let ghost s0 = self.abs();
                                    self.repeat_move(mk, w);
                                    let ghost mid = (
                                        self.cursor_ctrlr.cursor_x as nat,
                                        self.cursor_ctrlr.cursor_y as nat,
                                    );
                                    self.repeat_move(mk, 1);
                                    proof {
                                        assert(moved_n(mk, mid.0, mid.1, s0.rows, 0) == mid);
                                        assert(moved_n(mk, mid.0, mid.1, s0.rows, 1) == moved(
                                            mk,
                                            mid.0,
                                            mid.1,
                                            s0.rows,
                                        ));
                                        assert(moved_n(mk, s0.cursor_x, s0.cursor_y, s0.rows, (
                                        w + 1) as nat) == moved(mk, mid.0, mid.1, s0.rows));
                                    }
                                }
                            }
                        },
                        _ => {
                            self.repeat_move(mk, 1);
                        },
                    }
                }
            },
        }
    }

    /// The characters a save writes: all rows joined with newlines.  Fails
    /// exactly when no file name is associated.  The dirty counter is
    /// cleared by `mark_saved` once the caller's write has succeeded.
    pub fn save(&self) -> (r: Result<Vec<char>, EditorError>)
        ensures
            self.file_ctrlr.filename is None ==> (r matches Err(e) && e
                == EditorError::NoAssociatedPath),
            self.file_ctrlr.filename is Some ==> (r matches Ok(v) && v@ == joined(
                self.abs().rows,
            )),
    {
        self.file_ctrlr.save()
    }

    /// Records that every edit so far has reached the file: the buffer is
    /// clean again.
    pub fn mark_saved(&mut self)
        ensures
            final(self).dirty == 0,
            final(self).abs().rows == old(self).abs().rows,
            final(self).cursor_ctrlr == old(self).cursor_ctrlr,
            final(self).same_meta(old(self)),
            old(self).wf() ==> final(self).wf(),
    {
        self.dirty = 0;
    }

    /// Shows `s` in the message bar from instant `now_ms` on.
    pub fn set_status_msg(&mut self, s: String, now_ms: u64)
        ensures
            final(self).status_msg.message matches Some(m) && m@ == s@,
            final(self).status_msg.set_time matches Some(t) && t == now_ms,
            final(self).abs() == old(self).abs(),
            final(self).cursor_ctrlr == old(self).cursor_ctrlr,
            final(self).file_ctrlr == old(self).file_ctrlr,
            final(self).quit_attempts == old(self).quit_attempts,
            old(self).wf() ==> final(self).wf(),
    {
        self.status_msg.set_message(s, now_ms);
    }

    /// Whether the buffer holds edits not yet saved.
    pub fn is_dirty(&self) -> (b: bool)
        ensures
            b == (self.dirty > 0),
    {
        self.dirty > 0
    }

    /// Whether a file name is associated with the buffer.
    pub fn loaded_from_file(&self) -> (b: bool)
        ensures
            b == (self.file_ctrlr.filename is Some),
    {
        self.file_ctrlr.filename.is_some()
    }

    /// Associates (or clears) the file name that saves go to.
    pub fn set_filename(&mut self, filename: Option<String>)
        ensures
            final(self).file_ctrlr.filename == filename,
            final(self).abs() == old(self).abs(),
            final(self).cursor_ctrlr == old(self).cursor_ctrlr,
            final(self).status_msg == old(self).status_msg,
            final(self).quit_attempts == old(self).quit_attempts,
            old(self).wf() ==> final(self).wf(),
    {
        self.file_ctrlr.filename = filename;
        proof {
            assert(final(self).abs().rows =~~= old(self).abs().rows);
        }
    }

    /// Answers whether the editor may exit now.  With unsaved changes the
    /// exit is refused up to `MAX_QUIT_ATTEMPTS` times, each refusal
    /// showing a warning with the number of confirmations still needed.
    pub fn attempt_to_quit(&mut self, now_ms: u64) -> (quitting: bool)
        ensures
            quitting == !(old(self).dirty > 0 && old(self).quit_attempts < MAX_QUIT_ATTEMPTS),
            !quitting ==> final(self).quit_attempts == old(self).quit_attempts + 1,
            !quitting ==> (final(self).status_msg.message matches Some(m) && m@ == quit_warning(
                MAX_QUIT_ATTEMPTS - old(self).quit_attempts,
            )),
            !quitting ==> (final(self).status_msg.set_time matches Some(t) && t == now_ms),
            quitting ==> *final(self) == *old(self),
            final(self).abs() == old(self).abs(),
            final(self).cursor_ctrlr == old(self).cursor_ctrlr,
            final(self).file_ctrlr == old(self).file_ctrlr,
            old(self).wf() ==> final(self).wf(),
    {
        if self.is_dirty() && self.quit_attempts < MAX_QUIT_ATTEMPTS {
            let remaining = MAX_QUIT_ATTEMPTS - self.quit_attempts;
            let digits: &str = if remaining >= 3 {
                "3"
            } else if remaining == 2 {
                "2"
            } else {
                "1"
            };
            let msg = String::from_str("WARNING! File has unsaved changes. Press Ctrl+C ")
                .concat(digits).concat(
                " more times to quit without saving or Ctrl+S to save first.",
            );
            self.status_msg.set_message(msg, now_ms);
            self.quit_attempts = self.quit_attempts + 1;
            false
        } else {
            true
        }
    }

    /// What the crash guard should write on an abnormal shutdown: the
    /// joined buffer contents, but only while unsaved edits exist and the
    /// user has not insisted on quitting without them.
    pub fn crash_save_contents(&self) -> (r: Option<Vec<char>>)
        ensures
            (self.dirty > 0 && self.quit_attempts < MAX_QUIT_ATTEMPTS) ==> (r matches Some(v)
                && v@ == joined(self.abs().rows)),
            !(self.dirty > 0 && self.quit_attempts < MAX_QUIT_ATTEMPTS) ==> r is None,
    {
        if self.dirty > 0 && self.quit_attempts < MAX_QUIT_ATTEMPTS {
            Some(self.file_ctrlr.joined_contents())
        } else {
            None
        }
    }
}

/// The warning shown when a quit would lose unsaved changes, with the
/// number of confirmations still required.
pub open spec fn quit_warning(remaining: int) -> Seq<char> {
    "WARNING! File has unsaved changes. Press Ctrl+C "@ + (if remaining >= 3 {
        "3"@
    } else if remaining == 2 {
        "2"@
    } else {
        "1"@
    }) + " more times to quit without saving or Ctrl+S to save first."@
}

/// One editing command, as the input layer hands it to the engine.
#[derive(Clone, Copy, Debug, PartialEq, Eq, Structural)]
pub enum EditorCommand {
    /// Type one printable character (or a tab).
    Insert(char),
    /// The enter key.
    Newline,
    /// The backspace key; `true` deletes the whole previous word.
    Delete(bool),
    /// The delete key: steps right once, then deletes as backspace does.
    ForwardDelete(bool),
    /// A cursor movement; `true` makes it word-wise.
    Move(CursorMove, bool),
    /// Request to write the buffer to its file.
    Save,
    /// Request to leave the editor.
    Quit,
    /// An input that means nothing to the editor.
    Nop,
}

/// What the caller must do after a command was applied.
#[derive(Debug)]
pub enum Step {
    /// Keep reading commands.
    Continue,
    /// Leave the editor.
    Exit,
    /// A save was requested with no file name associated: prompt for one,
    /// call `set_filename`, and hand in `Save` again.
    NeedFilename,
    /// Write these characters to the associated file, then report back
    /// with `mark_saved` on success.
    Write(Vec<char>),
}

/// The cursor the buffer has after stepping right once, as the forward
/// delete does before deleting.
pub open spec fn stepped_right(s: BufferState) -> BufferState {
    let m = moved(MoveKey::Right, s.cursor_x, s.cursor_y, s.rows);
    BufferState { rows: s.rows, cursor_x: m.0, cursor_y: m.1, dirty: s.dirty }
}

impl Controllers {
    /// Applies one editing command and says what the caller owes in turn.
    /// Edits and moves always continue; a quit continues until it is
    /// confirmed; a save yields the characters to write, or asks for a
    /// file name first.
    pub fn process_command(&mut self, cmd: EditorCommand, now_ms: u64) -> (step: Step)
        requires
            old(self).wf(),
        ensures
            final(self).wf(),
            final(self).same_viewport(old(self)),
            cmd matches EditorCommand::Insert(ch) ==> (final(self).abs() == insert_step(
                old(self).abs(),
                ch,
                old(self).cursor_ctrlr.editor_width as nat,
            ) && (step is Continue) && final(self).same_meta(old(self))),
            cmd == EditorCommand::Newline ==> (final(self).abs() == newline_step(old(self).abs())
                && (step is Continue) && final(self).same_meta(old(self))),
            cmd matches EditorCommand::Delete(w) ==> (final(self).abs() == (if w {
                delete_n(old(self).abs(), word_delete_count(old(self).abs()))
            } else {
                delete_step(old(self).abs())
            }) && (step is Continue) && final(self).same_meta(old(self))),
            cmd matches EditorCommand::ForwardDelete(w) ==> (final(self).abs() == (if w {
                delete_n(
                    stepped_right(old(self).abs()),
                    word_delete_count(stepped_right(old(self).abs())),
                )
            } else {
                delete_step(stepped_right(old(self).abs()))
            }) && (step is Continue) && final(self).same_meta(old(self))),
            cmd matches EditorCommand::Move(k, w) ==> ((
            final(self).cursor_ctrlr.cursor_x as nat,
            final(self).cursor_ctrlr.cursor_y as nat,
            ) == move_result(
                old(self).abs(),
                old(self).cursor_ctrlr.row_offset as nat,
                old(self).cursor_ctrlr.editor_height as nat,
                k,
                w,
            ) && final(self).abs().rows == old(self).abs().rows && final(self).abs().dirty == old(
                self,
            ).abs().dirty && (step is Continue) && final(self).same_meta(old(self))),
            cmd == EditorCommand::Save ==> (*final(self) == *old(self) && (if old(
                self,
            ).file_ctrlr.filename is Some {
                step matches Step::Write(v) && v@ == joined(old(self).abs().rows)
            } else {
                step is NeedFilename
            })),
            cmd == EditorCommand::Quit ==> (final(self).abs() == old(self).abs() && (if old(
                self,
            ).dirty > 0 && old(self).quit_attempts < MAX_QUIT_ATTEMPTS {
                (step is Continue) && final(self).quit_attempts == old(self).quit_attempts + 1
                    && (final(self).status_msg.message matches Some(m) && m@ == quit_warning(
                    MAX_QUIT_ATTEMPTS - old(self).quit_attempts,
                ))
            } else {
                (step is Exit) && *final(self) == *old(self)
            })),
            cmd == EditorCommand::Nop ==> (*final(self) == *old(self) && step is Continue),
    {
        match cmd {
            EditorCommand::Insert(ch) => {
                self.insert_char(ch);
                Step::Continue
            },
            EditorCommand::Newline => {
                self.insert_newline();
                Step::Continue
            },
            EditorCommand::Delete(w) => {
                self.delete_char(w);
                Step::Continue
            },
            EditorCommand::ForwardDelete(w) => {
                self.repeat_move(MoveKey::Right, 1);
                proof {
                    let s = old(self).abs();
                    assert(moved_n(MoveKey::Right, s.cursor_x, s.cursor_y, s.rows, 0) == (
                    s.cursor_x,
                    s.cursor_y,
                    ));
                    assert(self.abs() == stepped_right(s));
                }
                self.delete_char(w);
                Step::Continue
            },
            EditorCommand::Move(k, w) => {
                self.move_cursor(k, w);
                Step::Continue
            },
            EditorCommand::Save => {
                if !self.loaded_from_file() {
                    Step::NeedFilename
                } else {
                    match self.save() {
                        Ok(v) => Step::Write(v),
                        Err(_) => Step::NeedFilename,
                    }
                }
            },
            EditorCommand::Quit => {
                if self.attempt_to_quit(now_ms) {
                    Step::Exit
                } else {
                    Step::Continue
                }
            },
            EditorCommand::Nop => Step::Continue,
        }
    }
}

/// Law: inserting a character and immediately deleting at the resulting
/// cursor restores the rows and the cursor exactly, for any insert that
/// does not trigger a word wrap and does not create the row it types into
/// (the dirty counter records both edits).
pub proof fn lemma_insert_delete_inverse(s: BufferState, ch: char, width: nat)
    requires
        s.wf(),
        s.cursor_y < s.rows.len(),
        s.cursor_x + 1 < width,
    ensures
        delete_step(insert_step(s, ch, width)).rows == s.rows,
        delete_step(insert_step(s, ch, width)).cursor_x == s.cursor_x,
        delete_step(insert_step(s, ch, width)).cursor_y == s.cursor_y,
{
    let y = s.cursor_y as int;
    let ins = insert_step(s, ch, width);
    assert(ins.rows[y].remove(s.cursor_x as int) =~= s.rows[y]);
    assert(delete_step(ins).rows =~~= s.rows);
}

/// Law: splitting a row with a newline at any column and immediately
/// deleting at the resulting cursor joins the halves back together: the
/// rows and the cursor column are restored exactly (the dirty counter
/// records both edits).
pub proof fn lemma_newline_delete_inverse(s: BufferState)
    requires
        s.wf(),
        s.cursor_y < s.rows.len(),
    ensures
        delete_step(newline_step(s)).rows == s.rows,
        delete_step(newline_step(s)).cursor_x == s.cursor_x,
        delete_step(newline_step(s)).cursor_y == s.cursor_y,
{
    let y = s.cursor_y as int;
    let n = newline_step(s);
    if s.cursor_x == 0 {
        assert(n.rows[y] + n.rows[y + 1] =~= s.rows[y]);
        assert(delete_step(n).rows =~~= s.rows);
    } else {
        assert(n.rows[y] + n.rows[y + 1] =~= s.rows[y]);
        assert(delete_step(n).rows =~~= s.rows);
        assert(delete_step(n).cursor_x == n.rows[y].len());
        assert(n.rows[y] =~= s.rows[y].take(s.cursor_x as int));
    }
}

} // verus!
