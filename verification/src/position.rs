//! The cursor/viewport model: logical cursor, derived render column, and
//! the scroll offsets that keep the cursor inside the visible window.

use vstd::prelude::*;

use crate::file::{
    next_tab_stop, width_upto, lemma_next_tab_stop, lemma_width_is_render_len,
    lemma_width_monotonic, FileController, Row, TAB_STOP,
};

verus! {

/// A single-step cursor movement.
#[derive(Clone, Copy, Debug, PartialEq, Eq, Structural)]
pub enum MoveKey {
    Up,
    Down,
    Left,
    Right,
    Home,
    End,
}

/// Length of the row at `y`, or 0 past the end of the buffer.
pub open spec fn row_len_at(rows: Seq<Seq<char>>, y: int) -> nat {
    if 0 <= y < rows.len() {
        rows[y].len()
    } else {
        0
    }
}

/// Where one movement step puts the cursor, before the final clamp.  Left at
/// column 0 wraps to the end of the previous row; Right at the end of a row
/// wraps to column 0 of the next row (the virtual past-the-end row
/// included); Up and Down stay within `[0, rows.len()]`.
pub open spec fn move_target(key: MoveKey, x: nat, y: nat, rows: Seq<Seq<char>>) -> (nat, nat) {
    match key {
        MoveKey::Up => (x, if y > 0 { (y - 1) as nat } else { 0 }),
        MoveKey::Down => (x, if y < rows.len() { (y + 1) as nat } else { y }),
        MoveKey::Left => if x > 0 {
            ((x - 1) as nat, y)
        } else if y > 0 {
            (row_len_at(rows, y - 1), (y - 1) as nat)
        } else {
            (0, 0)
        },
        MoveKey::Right => if y < rows.len() {
            if x < rows[y as int].len() {
                (x + 1, y)
            } else {
                (0, y + 1)
            }
        } else {
            (x, y)
        },
        MoveKey::End => if y < rows.len() {
            (rows[y as int].len(), y)
        } else {
            (x, y)
        },
        MoveKey::Home => (0, y),
    }
}

/// One movement step, with the cursor column clamped to the target row's
/// content length afterwards.
pub open spec fn moved(key: MoveKey, x: nat, y: nat, rows: Seq<Seq<char>>) -> (nat, nat) {
    let t = move_target(key, x, y, rows);
    let limit = row_len_at(rows, t.1 as int);
    (if t.0 <= limit {
        t.0
    } else {
        limit
    }, t.1)
}

/// `n` movement steps in the same direction.
pub open spec fn moved_n(key: MoveKey, x: nat, y: nat, rows: Seq<Seq<char>>, n: nat) -> (
    nat,
    nat,
)
    decreases n,
{
    if n == 0 {
        (x, y)
    } else {
        let p = moved_n(key, x, y, rows, (n - 1) as nat);
        moved(key, p.0, p.1, rows)
    }
}

/// Law: however the cursor is moved, and for any number of steps, the row
/// stays within `[0, rows.len()]` and the column never exceeds the target
/// row's content length.
pub proof fn lemma_move_in_bounds(key: MoveKey, x: nat, y: nat, rows: Seq<Seq<char>>, n: nat)
    requires
        y <= rows.len(),
    ensures
        moved_n(key, x, y, rows, n).1 <= rows.len(),
        n > 0 ==> moved_n(key, x, y, rows, n).0 <= row_len_at(
            rows,
            moved_n(key, x, y, rows, n).1 as int,
        ),
    decreases n,
{
    if n > 0 {
        lemma_move_in_bounds(key, x, y, rows, (n - 1) as nat);
    }
}

/// How a scroll offset reacts to the cursor position: it is pulled back to
/// `pos` when the cursor went above/left of the window, and pushed to
/// `pos - extent + 1` when the cursor went past the far edge.
pub open spec fn scrolled_offset(off: nat, pos: nat, extent: nat) -> nat {
    let pulled = if off <= pos {
        off
    } else {
        pos
    };
    if pos >= pulled + extent {
        (pos - extent + 1) as nat
    } else {
        pulled
    }
}

/// Tracks the logical cursor `(cursor_x, cursor_y)`, the derived render
/// column, the viewport size, and the scroll offsets.
pub struct CursorController {
    pub cursor_x: usize,
    pub cursor_y: usize,
    pub editor_height: usize,
    pub editor_width: usize,
    pub row_offset: usize,
    pub column_offset: usize,
    pub render_x: usize,
}

impl CursorController {
    /// A usable viewport is at least one cell in each direction.
    pub open spec fn wf(&self) -> bool {
        self.editor_height >= 1 && self.editor_width >= 1
    }

    /// A fresh cursor at the origin for a `(columns, rows)` window; a window
    /// wider than 100 columns is halved to keep long lines readable.
    pub fn new(win_size: (usize, usize)) -> (cc: CursorController)
        ensures
            cc.cursor_x == 0 && cc.cursor_y == 0,
            cc.row_offset == 0 && cc.column_offset == 0 && cc.render_x == 0,
            cc.editor_height == win_size.1,
            cc.editor_width == (if win_size.0 > 100 {
                (win_size.0 / 2 + 1) as int
            } else {
                win_size.0 as int
            }),
            win_size.0 >= 1 && win_size.1 >= 1 ==> cc.wf(),
    {
        CursorController {
            cursor_x: 0,
            cursor_y: 0,
            editor_height: win_size.1,
            editor_width: if win_size.0 > 100 {
                win_size.0 / 2 + 1
            } else {
                win_size.0
            },
            row_offset: 0,
            column_offset: 0,
            render_x: 0,
        }
    }

    /// The rendered cursor position `(render_x, cursor_y)` used to place the
    /// terminal cursor.
    pub fn pos(&self) -> (p: (usize, usize))
        ensures
            p.0 == self.render_x,
            p.1 == self.cursor_y,
    {
        (self.render_x, self.cursor_y)
    }

    /// The render column of the cursor, computed from the row's raw content
    /// alone by the tab-stop rule.
    pub fn get_render_x(&self, row: &Row) -> (rx: usize)
        requires
            self.cursor_x <= row.content@.len(),
            row.wf(),
        ensures
            rx == width_upto(row.content@, self.cursor_x as int),
    {
        let ghost content = row.content@;
        proof {
            lemma_width_is_render_len(content);
        }
        let mut rx: usize = 0;
        let mut i: usize = 0;
        while i < self.cursor_x
            invariant
                i <= self.cursor_x <= content.len(),
                rx == width_upto(content, i as int),
                content == row.content@,
                row.wf(),
            decreases self.cursor_x - i,
        {
            proof {
                lemma_width_monotonic(content, i + 1, content.len() as int);
                lemma_width_is_render_len(content);
                assert(row.render.len() == row.render@.len());
                assert(width_upto(content, i + 1) <= row.render@.len());
                if content[i as int] == '\t' {
                    lemma_next_tab_stop(rx as nat);
                    assert(rx + (TAB_STOP - rx % TAB_STOP) == next_tab_stop(rx as nat));
                }
            }
            let c = row.content[i];
            if c == '\t' {
                rx = rx + (TAB_STOP - rx % TAB_STOP);
            } else {
                rx = rx + 1;
            }
            i += 1;
        }
        rx
    }

    /// Recomputes the render column and drags the scroll offsets so that the
    /// cursor lies inside the viewport: afterwards
    /// `row_offset <= cursor_y < row_offset + editor_height` and
    /// `column_offset <= render_x < column_offset + editor_width`.
    pub fn scroll(&mut self, editor_rows: &FileController)
        requires
            editor_rows.wf(),
            old(self).wf(),
            old(self).cursor_y <= editor_rows.rows@.len(),
            old(self).cursor_y < editor_rows.rows@.len() ==> old(self).cursor_x
                <= editor_rows.row_contents()[old(self).cursor_y as int].len(),
        ensures
            final(self).render_x == if old(self).cursor_y < editor_rows.rows@.len() {
                width_upto(
                    editor_rows.row_contents()[old(self).cursor_y as int],
                    old(self).cursor_x as int,
                )
            } else {
                0
            },
            final(self).row_offset == scrolled_offset(
                old(self).row_offset as nat,
                old(self).cursor_y as nat,
                old(self).editor_height as nat,
            ),
            final(self).column_offset == scrolled_offset(
                old(self).column_offset as nat,
                final(self).render_x as nat,
                old(self).editor_width as nat,
            ),
            final(self).row_offset <= final(self).cursor_y,
            final(self).cursor_y < final(self).row_offset + final(self).editor_height,
            final(self).column_offset <= final(self).render_x,
            final(self).render_x < final(self).column_offset + final(self).editor_width,
            final(self).cursor_x == old(self).cursor_x,
            final(self).cursor_y == old(self).cursor_y,
            final(self).editor_height == old(self).editor_height,
            final(self).editor_width == old(self).editor_width,
            final(self).wf(),
    {
        self.render_x = 0;
        if self.cursor_y < editor_rows.count_rows() {
            self.render_x = self.get_render_x(editor_rows.get_editor_row(self.cursor_y));
        }
        if self.row_offset > self.cursor_y {
            self.row_offset = self.cursor_y;
        }
        if self.cursor_y - self.row_offset >= self.editor_height {
            self.row_offset = self.cursor_y - self.editor_height + 1;
        }
        if self.column_offset > self.render_x {
            self.column_offset = self.render_x;
        }
        if self.render_x - self.column_offset >= self.editor_width {
            self.column_offset = self.render_x - self.editor_width + 1;
        }
    }

    /// Applies one movement step; afterwards the cursor row is within
    /// `[0, row count]` and the cursor column within the target row.
    pub fn move_cursor(&mut self, direction: MoveKey, editor_rows: &FileController)
        requires
            old(self).cursor_y <= editor_rows.rows@.len(),
        ensures
            (final(self).cursor_x as nat, final(self).cursor_y as nat) == moved(
                direction,
                old(self).cursor_x as nat,
                old(self).cursor_y as nat,
                editor_rows.row_contents(),
            ),
            final(self).cursor_y <= editor_rows.rows@.len(),
            final(self).cursor_x <= row_len_at(
                editor_rows.row_contents(),
                final(self).cursor_y as int,
            ),
            final(self).editor_height == old(self).editor_height,
            final(self).editor_width == old(self).editor_width,
            final(self).row_offset == old(self).row_offset,
            final(self).column_offset == old(self).column_offset,
            final(self).render_x == old(self).render_x,
    {
        match direction {
            MoveKey::Up => {
                if self.cursor_y != 0 {
                    self.cursor_y -= 1;
                }
            },
            MoveKey::Left => {
                if self.cursor_x != 0 {
                    self.cursor_x -= 1;
                } else if self.cursor_y > 0 {
                    self.cursor_y -= 1;
                    self.cursor_x = editor_rows.get_editor_row(self.cursor_y).len();
                }
            },
            MoveKey::Down => {
                if self.cursor_y < editor_rows.count_rows() {
                    self.cursor_y += 1;
                }
            },
            MoveKey::Right => {
                if self.cursor_y < editor_rows.count_rows() {
                    if self.cursor_x < editor_rows.get_editor_row(self.cursor_y).len() {
                        self.cursor_x += 1;
                    } else {
                        self.cursor_y += 1;
                        self.cursor_x = 0;
                    }
                }
            },
            MoveKey::End => {
                if self.cursor_y < editor_rows.count_rows() {
                    self.cursor_x = editor_rows.get_editor_row(self.cursor_y).len();
                }
            },
            MoveKey::Home => {
                self.cursor_x = 0;
            },
        }
        let row_len = if self.cursor_y < editor_rows.count_rows() {
            editor_rows.get_editor_row(self.cursor_y).len()
        } else {
            0
        };
        if self.cursor_x > row_len {
            self.cursor_x = row_len;
        }
    }
}

} // verus!
