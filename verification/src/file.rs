//! The line store: rows of logical content paired with their rendered form
//! (tabs expanded to the next tab-stop boundary).

use vstd::prelude::*;

verus! {

/// Width of one tab stop: a tab advances the render column to the next
/// multiple of this value.
pub const TAB_STOP: usize = 4;

/// The smallest multiple of `TAB_STOP` that is strictly greater than `col`:
/// the render column reached by a tab typed at column `col`.
pub open spec fn next_tab_stop(col: nat) -> nat {
    (col / (TAB_STOP as nat) + 1) * (TAB_STOP as nat)
}

pub proof fn lemma_next_tab_stop(col: nat)
    ensures
        col < next_tab_stop(col) <= col + TAB_STOP,
{
    assert(col == (TAB_STOP as nat) * (col / (TAB_STOP as nat)) + col % (TAB_STOP as nat));
    assert(0 <= col % (TAB_STOP as nat) < TAB_STOP as nat);
}

/// A run of `n` spaces.
pub open spec fn spaces(n: nat) -> Seq<char> {
    Seq::new(n, |i: int| ' ')
}

/// The rendered form of a line: every tab is expanded into the spaces that
/// carry the column to the next tab stop (at least one), every other
/// character maps to itself.  The render column of a position is simply the
/// length of the render of the preceding characters.
pub open spec fn render_of(content: Seq<char>) -> Seq<char>
    decreases content.len(),
{
    if content.len() == 0 {
        Seq::empty()
    } else {
        let prev = render_of(content.drop_last());
        if content.last() == '\t' {
            prev + spaces((next_tab_stop(prev.len()) - prev.len()) as nat)
        } else {
            prev.push(content.last())
        }
    }
}

/// The render column after the first `n` characters of `content`, computed
/// from the raw content alone by the tab-stop rule, independently of
/// `render_of`.
pub open spec fn width_upto(content: Seq<char>, n: int) -> nat
    decreases n,
{
    if n <= 0 {
        0
    } else {
        let w = width_upto(content, n - 1);
        if content[n - 1] == '\t' {
            next_tab_stop(w)
        } else {
            w + 1
        }
    }
}

/// The accumulated tab-stop-aware width of a prefix equals the length of the
/// render of that prefix, and that render is literally a prefix of the full
/// render: the independent column computation and the cached render agree at
/// every boundary.
pub proof fn lemma_render_prefix(content: Seq<char>, n: int)
    requires
        0 <= n <= content.len(),
    ensures
        render_of(content.take(n)).len() == width_upto(content, n),
        render_of(content.take(n)) == render_of(content).take(width_upto(content, n) as int),
    decreases content.len(),
{
    if n == content.len() {
        assert(content.take(n) =~= content);
        lemma_width_is_render_len(content);
        assert(render_of(content).take(width_upto(content, n) as int) =~= render_of(content));
    } else {
        lemma_render_prefix(content.drop_last(), n);
        assert(content.drop_last().take(n) =~= content.take(n));
        assert(forall|i: int| 0 <= i < n ==> content.drop_last()[i] == content[i]);
        lemma_width_upto_same(content.drop_last(), content, n);
        let prev = render_of(content.drop_last());
        lemma_width_is_render_len(content.drop_last());
        lemma_width_monotonic(content.drop_last(), n, content.len() - 1);
        assert(width_upto(content, n) <= prev.len());
        if content.last() == '\t' {
            lemma_next_tab_stop(prev.len());
            assert(render_of(content).take(width_upto(content, n) as int) =~= prev.take(
                width_upto(content, n) as int,
            ));
        } else {
            assert(render_of(content).take(width_upto(content, n) as int) =~= prev.take(
                width_upto(content, n) as int,
            ));
        }
    }
}

/// `width_upto` only reads the first `n` characters.
proof fn lemma_width_upto_same(a: Seq<char>, b: Seq<char>, n: int)
    requires
        forall|i: int| 0 <= i < n ==> a[i] == b[i],
    ensures
        width_upto(a, n) == width_upto(b, n),
    decreases n,
{
    if n > 0 {
        lemma_width_upto_same(a, b, n - 1);
    }
}

/// The width of the whole content is the length of its render.
pub proof fn lemma_width_is_render_len(content: Seq<char>)
    ensures
        width_upto(content, content.len() as int) == render_of(content).len(),
    decreases content.len(),
{
    if content.len() > 0 {
        lemma_width_is_render_len(content.drop_last());
        lemma_width_upto_same(content.drop_last(), content, content.len() - 1);
        let prev = render_of(content.drop_last());
        if content.last() == '\t' {
            lemma_next_tab_stop(prev.len());
        }
    }
}

/// The render column never decreases as the prefix grows.
pub proof fn lemma_width_monotonic(content: Seq<char>, m: int, n: int)
    requires
        m <= n,
    ensures
        width_upto(content, m) <= width_upto(content, n),
    decreases n,
{
    if m < n && 0 < n {
        lemma_width_monotonic(content, m, n - 1);
        if content[n - 1] == '\t' {
            lemma_next_tab_stop(width_upto(content, n - 1));
        }
    }
}

/// Errors the line store reports to its callers.
#[derive(Clone, Copy, Debug, PartialEq, Eq, Structural)]
pub enum EditorError {
    /// A save was requested before any file name was associated.
    NoAssociatedPath,
}

/// Index of the first `'\n'` at or after `start`, or the text length if
/// there is none.
pub open spec fn line_end(text: Seq<char>, start: int) -> int
    decreases text.len() - start,
{
    if start >= text.len() {
        text.len() as int
    } else if text[start] == '\n' {
        start
    } else {
        line_end(text, start + 1)
    }
}

pub proof fn lemma_line_end_bounds(text: Seq<char>, start: int)
    requires
        start <= text.len(),
    ensures
        start <= line_end(text, start) <= text.len(),
    decreases text.len() - start,
{
    if start < text.len() && text[start] != '\n' {
        lemma_line_end_bounds(text, start + 1);
    }
}

/// `line_end` is pinned down by its characterization: no newline before `e`,
/// and a newline (or the end of the text) at `e`.
pub proof fn lemma_line_end_at(text: Seq<char>, s: int, e: int)
    requires
        0 <= s <= e <= text.len(),
        forall|k: int| s <= k < e ==> text[k] != '\n',
        e == text.len() || text[e] == '\n',
    ensures
        line_end(text, s) == e,
    decreases e - s,
{
    if s < e {
        lemma_line_end_at(text, s + 1, e);
    }
}

/// A line with a trailing carriage return loses it (the `"\r\n"` ending).
pub open spec fn strip_cr(line: Seq<char>) -> Seq<char> {
    if line.len() > 0 && line.last() == '\r' {
        line.drop_last()
    } else {
        line
    }
}

/// The rows obtained from the text from position `start` on: one row per
/// line, split at each `'\n'`; a line that ended at a `'\n'` loses a
/// trailing `'\r'`; a trailing `'\n'` produces no extra empty row.
pub open spec fn split_lines_from(text: Seq<char>, start: int) -> Seq<Seq<char>>
    decreases text.len() - start,
    when 0 <= start <= text.len()
    via split_lines_from_decreases
{
    if start >= text.len() {
        Seq::empty()
    } else {
        let e = line_end(text, start);
        if e >= text.len() {
            seq![text.subrange(start, text.len() as int)]
        } else {
            seq![strip_cr(text.subrange(start, e))] + split_lines_from(text, e + 1)
        }
    }
}

#[via_fn]
proof fn split_lines_from_decreases(text: Seq<char>, start: int) {
    if 0 <= start < text.len() {
        lemma_line_end_bounds(text, start);
    }
}

/// How loading splits a whole text into rows.
pub open spec fn split_lines(text: Seq<char>) -> Seq<Seq<char>> {
    split_lines_from(text, 0)
}

/// How saving joins the rows: their contents separated by single `'\n'`
/// characters, with no newline added after the last row.
pub open spec fn joined(rows: Seq<Seq<char>>) -> Seq<char>
    decreases rows.len(),
{
    if rows.len() == 0 {
        Seq::empty()
    } else if rows.len() == 1 {
        rows[0]
    } else {
        joined(rows.drop_last()) + seq!['\n'] + rows.last()
    }
}

pub proof fn lemma_line_end_props(text: Seq<char>, start: int)
    requires
        0 <= start <= text.len(),
    ensures
        start <= line_end(text, start) <= text.len(),
        forall|k: int| start <= k < line_end(text, start) ==> text[k] != '\n',
        line_end(text, start) < text.len() ==> text[line_end(text, start)] == '\n',
    decreases text.len() - start,
{
    if start < text.len() && text[start] != '\n' {
        lemma_line_end_props(text, start + 1);
    }
}

/// Splitting is insensitive to what stands before the start position:
/// starting after a prefix `u` reads exactly the lines of `v`.
proof fn lemma_split_from_concat(u: Seq<char>, v: Seq<char>)
    ensures
        split_lines_from(u + v, u.len() as int) == split_lines(v),
    decreases v.len(),
{
    let t = u + v;
    if v.len() == 0 {
        assert(t =~= u);
    } else {
        lemma_line_end_props(v, 0);
        let e0 = line_end(v, 0);
        assert(forall|k: int| 0 <= k < v.len() ==> t[u.len() + k] == v[k]);
        lemma_line_end_at(
            t,
            u.len() as int,
            u.len() + e0,
        );
        if e0 >= v.len() {
            assert(t.subrange(u.len() as int, t.len() as int) =~= v);
            assert(v.subrange(0, v.len() as int) =~= v);
        } else {
            assert(t.subrange(u.len() as int, u.len() + e0) =~= v.subrange(0, e0));
            let u2 = u + v.take(e0 + 1);
            let v2 = v.skip(e0 + 1);
            assert(t =~= u2 + v2);
            lemma_split_from_concat(u2, v2);
            assert(v =~= v.take(e0 + 1) + v2);
            lemma_split_from_concat(v.take(e0 + 1), v2);
        }
    }
}

/// A row's content that a save-then-load round trip can reproduce exactly:
/// it holds no newline (a newline would split it in two).
pub open spec fn row_text_ok(line: Seq<char>) -> bool {
    forall|j: int| 0 <= j < line.len() ==> line[j] != '\n'
}

/// `joined` unfolded from the left.
proof fn lemma_joined_first(rows: Seq<Seq<char>>)
    requires
        rows.len() >= 2,
    ensures
        joined(rows) == rows[0] + seq!['\n'] + joined(rows.drop_first()),
    decreases rows.len(),
{
    if rows.len() == 2 {
        assert(rows.drop_last() =~= seq![rows[0]]);
        assert(rows.drop_first() =~= seq![rows[1]]);
        assert(joined(rows.drop_last()) == rows[0]);
        assert(joined(rows.drop_first()) == rows[1]);
        assert(joined(rows) =~= rows[0] + seq!['\n'] + joined(rows.drop_first()));
    } else {
        lemma_joined_first(rows.drop_last());
        assert(rows.drop_last()[0] == rows[0]);
        assert(rows.drop_last().drop_first() =~= rows.drop_first().drop_last());
        assert(rows.drop_first().last() == rows.last());
        assert((rows[0] + seq!['\n'] + joined(rows.drop_first().drop_last())) + seq!['\n']
            + rows.last() =~= rows[0] + seq!['\n'] + (joined(rows.drop_first().drop_last())
            + seq!['\n'] + rows.last()));
        assert(joined(rows) == joined(rows.drop_last()) + seq!['\n'] + rows.last());
        assert(joined(rows.drop_first()) == joined(rows.drop_first().drop_last()) + seq!['\n']
            + rows.drop_first().last());
    }
}

/// Law: loading the text a save produced restores the rows exactly, provided
/// no row holds a newline, no row but the last ends in a carriage return,
/// and the final row is nonempty (or there are no rows at all).  Without
/// those provisos the text genuinely denotes different rows: a trailing
/// empty row leaves no mark in the text, and a `"\r\n"` ending is read as a
/// line break.
pub proof fn lemma_save_load_round_trip(rows: Seq<Seq<char>>)
    requires
        forall|i: int| 0 <= i < rows.len() ==> row_text_ok(#[trigger] rows[i]),
        forall|i: int|
            0 <= i < rows.len() - 1 && (#[trigger] rows[i]).len() > 0 ==> rows[i].last() != '\r',
        rows.len() > 0 ==> rows[rows.len() - 1].len() > 0,
    ensures
        split_lines(joined(rows)) == rows,
    decreases rows.len(),
{
    let text = joined(rows);
    if rows.len() == 0 {
    } else if rows.len() == 1 {
        assert(text == rows[0]);
        lemma_line_end_at(text, 0, text.len() as int);
        assert(text.subrange(0, text.len() as int) =~= rows[0]);
        assert(split_lines(text) =~= rows);
    } else {
        lemma_joined_first(rows);
        let first = rows[0];
        let rest = rows.drop_first();
        let l = first.len() as int;
        assert(forall|k: int| 0 <= k < l ==> text[k] == first[k]);
        assert(text[l] == '\n');
        lemma_line_end_at(text, 0, l);
        assert(text.subrange(0, l) =~= first);
        assert(strip_cr(first) == first);
        lemma_split_from_concat(first + seq!['\n'], joined(rest));
        assert(text =~= (first + seq!['\n']) + joined(rest));
        assert(forall|i: int| 0 <= i < rest.len() ==> rest[i] == rows[i + 1]);
        assert(forall|i: int| 0 <= i < rest.len() ==> row_text_ok(#[trigger] rest[i]));
        lemma_save_load_round_trip(rest);
        assert(split_lines(text) =~= seq![first] + rest);
        assert(seq![first] + rest =~= rows);
    }
}

/// One logical line: the characters as typed (`content`, tabs stored
/// literally) and the cached display form (`render`).  Every operation that
/// changes `content` recomputes `render` before returning.
pub struct Row {
    pub content: Vec<char>,
    pub render: Vec<char>,
}

impl Row {
    /// The render cache is exactly the rendered form of the content.
    pub open spec fn wf(&self) -> bool {
        self.render@ == render_of(self.content@)
    }

    fn new(content: Vec<char>, render: Vec<char>) -> (r: Row)
        ensures
            r.content == content,
            r.render == render,
    {
        Row { content, render }
    }

    /// Number of characters of logical content.
    pub fn len(&self) -> (n: usize)
        ensures
            n == self.content@.len(),
    {
        self.content.len()
    }

    /// Inserts `ch` at character position `idx` and refreshes the render.
    pub fn insert_char(&mut self, idx: usize, ch: char)
        requires
            idx <= old(self).content@.len(),
        ensures
            final(self).content@ == old(self).content@.insert(idx as int, ch),
            final(self).wf(),
    {
        self.content.insert(idx, ch);
        FileController::render_row(self);
    }

    /// Removes the character at position `idx` and refreshes the render.
    pub fn delete_char(&mut self, idx: usize)
        requires
            idx < old(self).content@.len(),
        ensures
            final(self).content@ == old(self).content@.remove(idx as int),
            final(self).wf(),
    {
        self.content.remove(idx);
        FileController::render_row(self);
    }
}

/// The ordered store of all rows, plus the associated file name, if any.
pub struct FileController {
    pub rows: Vec<Row>,
    pub filename: Option<String>,
}

impl FileController {
    /// Every row's render cache is consistent with its content.
    pub open spec fn wf(&self) -> bool {
        forall|i: int| 0 <= i < self.rows@.len() ==> (#[trigger] self.rows@[i]).wf()
    }

    /// The logical contents of all rows, in order.
    pub open spec fn row_contents(&self) -> Seq<Seq<char>> {
        self.rows@.map_values(|r: Row| r.content@)
    }

    /// An empty buffer with no associated file.
    pub fn new() -> (fc: FileController)
        ensures
            fc.row_contents() =~= Seq::<Seq<char>>::empty(),
            fc.filename is None,
            fc.wf(),
    {
        FileController { rows: Vec::new(), filename: None }
    }

    /// Recomputes `row.render` from `row.content`: each tab is expanded with
    /// spaces up to the next tab-stop boundary, all other characters map 1:1.
    pub fn render_row(row: &mut Row)
        ensures
            final(row).content@ == old(row).content@,
            final(row).wf(),
    {
        let ghost content = row.content@;
        let mut render: Vec<char> = Vec::new();
        let n = row.content.len();
        let mut i: usize = 0;
        while i < n
            invariant
                i <= n,
                n == content.len(),
                row.content@ == content,
                render@ == render_of(content.take(i as int)),
            decreases n - i,
        {
            let c = row.content[i];
            proof {
                assert(content.take(i + 1).drop_last() =~= content.take(i as int));
                assert(content.take(i + 1).last() == c);
            }
            if c == '\t' {
                let ghost prev = render@;
                let pad = TAB_STOP - render.len() % TAB_STOP;
                proof {
                    lemma_next_tab_stop(prev.len());
                    assert(prev.len() + pad == next_tab_stop(prev.len()));
                }
                let mut j: usize = 0;
                while j < pad
                    invariant
                        j <= pad,
                        render@ == prev + spaces(j as nat),
                    decreases pad - j,
                {
                    render.push(' ');
                    proof {
                        assert((prev + spaces((j + 1) as nat)) =~= (prev + spaces(
                            j as nat,
                        )).push(' '));
                    }
                    j += 1;
                }
                proof {
                    assert(render@ =~= prev + spaces(
                        (next_tab_stop(prev.len()) - prev.len()) as nat,
                    ));
                }
            } else {
                render.push(c);
            }
            i += 1;
        }
        proof {
            assert(content.take(n as int) =~= content);
        }
        row.render = render;
    }

    /// Number of rows in the store.
    pub fn count_rows(&self) -> (n: usize)
        ensures
            n == self.rows@.len(),
    {
        self.rows.len()
    }

    /// Read access to the row at `idx`.
    pub fn get_editor_row(&self, idx: usize) -> (r: &Row)
        requires
            idx < self.rows@.len(),
        ensures
            *r == self.rows@[idx as int],
    {
        &self.rows[idx]
    }

    /// Read access to the rendered form of the row at `idx`.
    pub fn get_render(&self, idx: usize) -> (r: &Vec<char>)
        requires
            idx < self.rows@.len(),
        ensures
            r@ == self.rows@[idx as int].render@,
    {
        &self.rows[idx].render
    }

    /// Inserts a new row holding `content` at position `row_idx`, computing
    /// its render immediately.
    pub fn insert_row(&mut self, row_idx: usize, content: Vec<char>)
        requires
            row_idx <= old(self).rows@.len(),
        ensures
            final(self).row_contents() == old(self).row_contents().insert(
                row_idx as int,
                content@,
            ),
            old(self).wf() ==> final(self).wf(),
            final(self).filename == old(self).filename,
    {
        let mut new_row = Row::new(content, Vec::new());
        Self::render_row(&mut new_row);
        self.rows.insert(row_idx, new_row);
        proof {
            assert(final(self).row_contents() =~= old(self).row_contents().insert(
                row_idx as int,
                new_row.content@,
            ));
        }
    }

    /// Inserts `ch` at character position `char_idx` of row `row_idx`,
    /// refreshing that row's render.
    pub fn row_insert_char(&mut self, row_idx: usize, char_idx: usize, ch: char)
        requires
            row_idx < old(self).rows@.len(),
            char_idx <= old(self).row_contents()[row_idx as int].len(),
        ensures
            final(self).row_contents() == old(self).row_contents().update(
                row_idx as int,
                old(self).row_contents()[row_idx as int].insert(char_idx as int, ch),
            ),
            old(self).wf() ==> final(self).wf(),
            final(self).filename == old(self).filename,
    {
        let mut row = self.rows.remove(row_idx);
        row.insert_char(char_idx, ch);
        self.rows.insert(row_idx, row);
        proof {
            assert(final(self).rows@ =~= old(self).rows@.update(row_idx as int, row));
            assert(final(self).row_contents() =~= old(self).row_contents().update(
                row_idx as int,
                row.content@,
            ));
        }
    }

    /// Removes the character at `char_idx` of row `row_idx`, refreshing that
    /// row's render.
    pub fn row_delete_char(&mut self, row_idx: usize, char_idx: usize)
        requires
            row_idx < old(self).rows@.len(),
            char_idx < old(self).row_contents()[row_idx as int].len(),
        ensures
            final(self).row_contents() == old(self).row_contents().update(
                row_idx as int,
                old(self).row_contents()[row_idx as int].remove(char_idx as int),
            ),
            old(self).wf() ==> final(self).wf(),
            final(self).filename == old(self).filename,
    {
        let mut row = self.rows.remove(row_idx);
        row.delete_char(char_idx);
        self.rows.insert(row_idx, row);
        proof {
            assert(final(self).rows@ =~= old(self).rows@.update(row_idx as int, row));
            assert(final(self).row_contents() =~= old(self).row_contents().update(
                row_idx as int,
                row.content@,
            ));
        }
    }

    /// Shortens row `row_idx` to its first `new_len` characters, refreshing
    /// that row's render.
    pub fn row_truncate(&mut self, row_idx: usize, new_len: usize)
        requires
            row_idx < old(self).rows@.len(),
            new_len <= old(self).row_contents()[row_idx as int].len(),
        ensures
            final(self).row_contents() == old(self).row_contents().update(
                row_idx as int,
                old(self).row_contents()[row_idx as int].take(new_len as int),
            ),
            old(self).wf() ==> final(self).wf(),
            final(self).filename == old(self).filename,
    {
        let mut row = self.rows.remove(row_idx);
        row.content.truncate(new_len);
        Self::render_row(&mut row);
        self.rows.insert(row_idx, row);
        proof {
            assert(final(self).rows@ =~= old(self).rows@.update(row_idx as int, row));
            assert(final(self).row_contents() =~= old(self).row_contents().update(
                row_idx as int,
                row.content@,
            ));
        }
    }

    /// Appends row `row_idx`'s content onto row `row_idx - 1`, removes row
    /// `row_idx`, and refreshes the merged row's render.  Guarded no-op when
    /// `row_idx` is 0.
    pub fn join_adjacent_rows(&mut self, row_idx: usize)
        requires
            row_idx < old(self).rows@.len(),
        ensures
            row_idx == 0 ==> *final(self) == *old(self),
            row_idx > 0 ==> final(self).row_contents() == old(self).row_contents().update(
                row_idx - 1,
                old(self).row_contents()[row_idx - 1] + old(self).row_contents()[row_idx as int],
            ).remove(row_idx as int),
            old(self).wf() ==> final(self).wf(),
            final(self).filename == old(self).filename,
    {
        if row_idx == 0 {
            return ;
        }
        let curr_row = self.rows.remove(row_idx);
        let mut prev_row = self.rows.remove(row_idx - 1);
        let mut k: usize = 0;
        let n = curr_row.content.len();
        while k < n
            invariant
                k <= n,
                n == curr_row.content@.len(),
                prev_row.content@ == old(self).rows@[row_idx - 1].content@
                    + curr_row.content@.take(k as int),
            decreases n - k,
        {
            let c = curr_row.content[k];
            prev_row.content.push(c);
            proof {
                assert(old(self).rows@[row_idx - 1].content@ + curr_row.content@.take(k + 1)
                    =~= (old(self).rows@[row_idx - 1].content@ + curr_row.content@.take(
                    k as int,
                )).push(c));
            }
            k += 1;
        }
        proof {
            assert(curr_row.content@.take(n as int) =~= curr_row.content@);
        }
        Self::render_row(&mut prev_row);
        self.rows.insert(row_idx - 1, prev_row);
        proof {
            assert(final(self).rows@ =~= old(self).rows@.update(
                row_idx - 1,
                prev_row,
            ).remove(row_idx as int));
            assert(final(self).row_contents() =~= old(self).row_contents().update(
                row_idx - 1,
                old(self).row_contents()[row_idx - 1] + old(self).row_contents()[row_idx as int],
            ).remove(row_idx as int));
        }
    }

    /// A buffer loaded from the text of the file named `filename`: one row
    /// per line of `text`, each with its render computed.
    pub fn from_text(filename: String, text: &Vec<char>) -> (fc: FileController)
        ensures
            fc.row_contents() == split_lines(text@),
            fc.filename matches Some(f) && f == filename,
            fc.wf(),
    {
        let mut fc = FileController { rows: Vec::new(), filename: Some(filename) };
        let n = text.len();
        let mut s: usize = 0;
        proof {
            assert(fc.row_contents() =~= Seq::<Seq<char>>::empty());
        }
        while s < n
            invariant
                s <= n,
                n == text@.len(),
                split_lines(text@) == fc.row_contents() + split_lines_from(text@, s as int),
                fc.wf(),
                fc.filename == Some(filename),
            decreases n - s,
        {
            let mut e: usize = s;
            while e < n && text[e] != '\n'
                invariant
                    s <= e <= n,
                    n == text@.len(),
                    forall|k: int| s <= k < e ==> text@[k] != '\n',
                decreases n - e,
            {
                e += 1;
            }
            proof {
                lemma_line_end_at(text@, s as int, e as int);
            }
            let stop: usize = if e > s && e < n && text[e - 1] == '\r' {
                e - 1
            } else {
                e
            };
            // A lone trailing carriage return on the final, unterminated line
            // is kept: only the "\r\n" ending loses it.
            let mut line: Vec<char> = Vec::new();
            let mut k: usize = s;
            while k < stop
                invariant
                    s <= k <= stop <= n,
                    n == text@.len(),
                    line@ == text@.subrange(s as int, k as int),
                decreases stop - k,
            {
                let c = text[k];
                proof {
                    assert(text@.subrange(s as int, k + 1) =~= text@.subrange(
                        s as int,
                        k as int,
                    ).push(c));
                }
                line.push(c);
                k += 1;
            }
            proof {
                let raw = text@.subrange(s as int, e as int);
                if e < n {
                    assert(strip_cr(raw) =~= text@.subrange(s as int, stop as int));
                } else {
                    assert(raw =~= text@.subrange(s as int, stop as int));
                }
            }
            let ghost before = fc.row_contents();
            let idx = fc.rows.len();
            fc.insert_row(idx, line);
            proof {
                assert(fc.row_contents() =~= before.push(line@));
            }
            if e < n {
                proof {
                    assert(fc.row_contents() + split_lines_from(text@, e + 1) =~= before
                        + split_lines_from(text@, s as int));
                }
                s = e + 1;
            } else {
                proof {
                    assert(fc.row_contents() + split_lines_from(text@, n as int) =~= before
                        + split_lines_from(text@, s as int));
                }
                s = n;
            }
        }
        proof {
            assert(split_lines_from(text@, s as int) =~= Seq::<Seq<char>>::empty());
            assert(fc.row_contents() =~= fc.row_contents() + Seq::<Seq<char>>::empty());
        }
        fc
    }

    /// The bytes a save writes: all rows joined with `'\n'`, no trailing
    /// newline added.  Fails exactly when no file name is associated; the
    /// caller writes the returned characters to the file as one truncating
    /// write.
    pub fn save(&self) -> (r: Result<Vec<char>, EditorError>)
        ensures
            self.filename is None ==> (r matches Err(e) && e == EditorError::NoAssociatedPath),
            self.filename is Some ==> (r matches Ok(v) && v@ == joined(self.row_contents())),
    {
        if self.filename.is_none() {
            return Err(EditorError::NoAssociatedPath);
        }
        Ok(self.joined_contents())
    }

    /// All rows joined with `'\n'`, no trailing newline added: what a save
    /// (or the crash guard) writes.
    pub fn joined_contents(&self) -> (out: Vec<char>)
        ensures
            out@ == joined(self.row_contents()),
    {
        let mut out: Vec<char> = Vec::new();
        let count = self.rows.len();
        let mut i: usize = 0;
        while i < count
            invariant
                i <= count,
                count == self.rows@.len(),
                out@ == joined(self.row_contents().take(i as int)),
            decreases count - i,
        {
            if i > 0 {
                out.push('\n');
            }
            let ghost pre = out@;
            let m = self.rows[i].content.len();
            let mut k: usize = 0;
            while k < m
                invariant
                    k <= m,
                    m == self.rows@[i as int].content@.len(),
                    i < count == self.rows@.len(),
                    out@ == pre + self.rows@[i as int].content@.take(k as int),
                decreases m - k,
            {
                let c = self.rows[i].content[k];
                proof {
                    let rci = self.rows@[i as int].content@;
                    assert(pre + rci.take(k + 1) =~= (pre + rci.take(k as int)).push(c));
                }
                out.push(c);
                k += 1;
            }
            proof {
                let rc = self.row_contents();
                assert(self.rows@[i as int].content@.take(m as int) =~= rc[i as int]);
                assert(rc.take(i + 1).drop_last() =~= rc.take(i as int));
                if i == 0 {
                    assert(out@ =~= joined(rc.take(1)));
                } else {
                    assert(out@ =~= joined(rc.take(i as int)) + seq!['\n'] + rc[i as int]);
                }
            }
            i += 1;
        }
        proof {
            assert(self.row_contents().take(count as int) =~= self.row_contents());
        }
        out
    }
}

} // verus!
