//! The renderer: turns the editor state into the ordered sequence of draw
//! commands for one full frame.  The caller translates each command into
//! its terminal protocol and flushes the whole frame as one write.

use vstd::prelude::*;

use crate::controllers::{min_nat, Controllers};
use crate::file::{render_of, spaces, width_upto};
use crate::position::scrolled_offset;
use crate::writing::{message_expired, WritingController};

verus! {

/// One draw command of a frame.
#[derive(Clone, Debug, PartialEq, Eq)]
pub enum DrawOp {
    /// Make the cursor invisible while the frame is painted.
    HideCursor,
    /// Make the cursor visible again.
    ShowCursor,
    /// Place the terminal cursor at `(column, row)`, zero-based.
    MoveTo(usize, usize),
    /// Erase from the cursor to the end of the screen line.
    ClearRestOfLine,
    /// Start reverse-video (the status bar's look).
    ReverseVideo,
    /// Return to the normal look.
    NormalVideo,
    /// Write these characters.
    Text(Vec<char>),
}

/// The mathematical form of a draw command.
#[verifier::ext_equal]
pub enum DrawOpV {
    HideCursor,
    ShowCursor,
    MoveTo(int, int),
    ClearRestOfLine,
    ReverseVideo,
    NormalVideo,
    Text(Seq<char>),
}

impl View for DrawOp {
    type V = DrawOpV;

    open spec fn view(&self) -> DrawOpV {
        match self {
            DrawOp::HideCursor => DrawOpV::HideCursor,
            DrawOp::ShowCursor => DrawOpV::ShowCursor,
            DrawOp::MoveTo(c, r) => DrawOpV::MoveTo(*c as int, *r as int),
            DrawOp::ClearRestOfLine => DrawOpV::ClearRestOfLine,
            DrawOp::ReverseVideo => DrawOpV::ReverseVideo,
            DrawOp::NormalVideo => DrawOpV::NormalVideo,
            DrawOp::Text(v) => DrawOpV::Text(v@),
        }
    }
}

pub open spec fn ops_view(ops: Seq<DrawOp>) -> Seq<DrawOpV> {
    ops.map_values(|op: DrawOp| op@)
}

/// The part of a rendered row that the viewport shows: at most `width`
/// characters starting at the horizontal scroll offset.
pub open spec fn visible_slice(render: Seq<char>, coff: nat, width: nat) -> Seq<char> {
    let avail = if render.len() >= coff {
        (render.len() - coff) as nat
    } else {
        0
    };
    let len = min_nat(avail, width);
    let start: int = if len == 0 {
        0
    } else {
        coff as int
    };
    render.subrange(start, start + len)
}

/// The greeting shown on a blank, nameless buffer.
pub open spec fn welcome_text() -> Seq<char> {
    "Text Magic editor"@
}

/// The welcome banner, roughly centered: a `~` filler, half the leftover
/// width in spaces, then the greeting (clipped to the width).
pub open spec fn banner_line(width: nat) -> Seq<char> {
    let w = welcome_text();
    let shown = if w.len() <= width {
        w
    } else {
        w.take(width as int)
    };
    let padding = if width > w.len() {
        ((width - w.len()) / 2) as nat
    } else {
        0
    };
    if padding > 0 {
        seq!['~'] + spaces((padding - 1) as nat) + shown
    } else {
        shown
    }
}

/// The text of screen line `i`: the visible slice of the row it shows, a
/// `~` filler past the end of the buffer, or the welcome banner on a
/// blank, nameless buffer's designated line.
pub open spec fn screen_line(c: &Controllers, i: nat) -> Seq<char> {
    let file_row = c.cursor_ctrlr.row_offset as nat + i;
    if file_row >= c.abs().rows.len() {
        if c.file_ctrlr.filename is None && i == c.cursor_ctrlr.editor_height as nat / 4 {
            banner_line(c.cursor_ctrlr.editor_width as nat)
        } else {
            seq!['~']
        }
    } else {
        visible_slice(
            render_of(c.abs().rows[file_row as int]),
            c.cursor_ctrlr.column_offset as nat,
            c.cursor_ctrlr.editor_width as nat,
        )
    }
}

/// The draw commands of the first `n` screen lines: each line's text, a
/// clear to the end of the line, and a line break.
pub open spec fn rows_ops(c: &Controllers, n: nat) -> Seq<DrawOpV>
    decreases n,
{
    if n == 0 {
        Seq::empty()
    } else {
        rows_ops(c, (n - 1) as nat) + seq![
            DrawOpV::Text(screen_line(c, (n - 1) as nat)),
            DrawOpV::ClearRestOfLine,
            DrawOpV::Text("\r\n"@),
        ]
    }
}

/// The decimal digit `d` stands for, as a character.
pub open spec fn dec_digit(d: int) -> char {
    if d == 0 {
        '0'
    } else if d == 1 {
        '1'
    } else if d == 2 {
        '2'
    } else if d == 3 {
        '3'
    } else if d == 4 {
        '4'
    } else if d == 5 {
        '5'
    } else if d == 6 {
        '6'
    } else if d == 7 {
        '7'
    } else if d == 8 {
        '8'
    } else {
        '9'
    }
}

/// The usual decimal writing of `n`, most significant digit first, no
/// leading zeros (a single `'0'` for zero).
pub open spec fn dec_rep(n: int) -> Seq<char>
    decreases n,
{
    if n < 10 {
        seq![dec_digit(n)]
    } else {
        dec_rep(n / 10).push(dec_digit(n % 10))
    }
}

/// The left half of the status bar: file name (or a placeholder), a
/// modified marker, and the row count.
pub open spec fn status_info(c: &Controllers) -> Seq<char> {
    (match c.file_ctrlr.filename {
        Some(f) => f@,
        None => "[No Name]"@,
    }) + " "@ + (if c.dirty > 0 {
        "(modified)"@
    } else {
        ""@
    }) + " -- "@ + dec_rep(c.abs().rows.len() as int) + " lines"@
}

/// The right-aligned cursor position indicator `row/rows`.
pub open spec fn line_indicator(c: &Controllers) -> Seq<char> {
    dec_rep(c.cursor_ctrlr.cursor_y + 1 as int) + "/"@ + dec_rep(c.abs().rows.len() as int)
}

/// The status bar, exactly one viewport width wide: the info text clipped
/// to the width, spaces, and the position indicator right-aligned when it
/// fits in the leftover space.
pub open spec fn status_line(c: &Controllers) -> Seq<char> {
    let width = c.cursor_ctrlr.editor_width as nat;
    let info = status_info(c);
    let shown = if info.len() <= width {
        info
    } else {
        info.take(width as int)
    };
    let li = line_indicator(c);
    if 1 <= li.len() <= width - shown.len() {
        shown + spaces((width - shown.len() - li.len()) as nat) + li
    } else {
        shown + spaces((width - shown.len()) as nat)
    }
}

/// The message bar: cleared, then the unexpired status message (if any)
/// clipped to the viewport width.
pub open spec fn message_ops(c: &Controllers, msg: Option<Seq<char>>) -> Seq<DrawOpV> {
    seq![DrawOpV::ClearRestOfLine] + (match msg {
        Some(m) => {
            let width = c.cursor_ctrlr.editor_width as nat;
            let shown = if m.len() <= width {
                m
            } else {
                m.take(width as int)
            };
            seq![DrawOpV::Text(shown)]
        },
        None => Seq::empty(),
    })
}

/// One whole frame, over the state the scroll has just brought up to
/// date: hide the cursor, home, every screen line, the status bar in
/// reverse video, the message bar, and finally the cursor placed at its
/// viewport position and shown again.
pub open spec fn frame_ops(c: &Controllers, msg: Option<Seq<char>>) -> Seq<DrawOpV> {
    seq![DrawOpV::HideCursor, DrawOpV::MoveTo(0, 0)] + rows_ops(
        c,
        c.cursor_ctrlr.editor_height as nat,
    ) + seq![
        DrawOpV::ReverseVideo,
        DrawOpV::Text(status_line(c)),
        DrawOpV::NormalVideo,
        DrawOpV::Text("\r\n"@),
    ] + message_ops(c, msg) + seq![
        DrawOpV::MoveTo(
            c.cursor_ctrlr.render_x - c.cursor_ctrlr.column_offset,
            c.cursor_ctrlr.cursor_y - c.cursor_ctrlr.row_offset,
        ),
        DrawOpV::ShowCursor,
    ]
}

fn digit_char(d: usize) -> (c: char)
    requires
        d < 10,
    ensures
        c == dec_digit(d as int),
{
    if d == 0 {
        '0'
    } else if d == 1 {
        '1'
    } else if d == 2 {
        '2'
    } else if d == 3 {
        '3'
    } else if d == 4 {
        '4'
    } else if d == 5 {
        '5'
    } else if d == 6 {
        '6'
    } else if d == 7 {
        '7'
    } else if d == 8 {
        '8'
    } else {
        '9'
    }
}

/// The decimal digits of `n`, most significant first.
pub fn usize_to_decimal(n: usize) -> (v: Vec<char>)
    ensures
        v@ == dec_rep(n as int),
{
    let mut digits: Vec<char> = Vec::new();
    let mut k: usize = n;
    while k >= 10
        invariant
            dec_rep(n as int) == dec_rep(k as int) + digits@.reverse(),
        decreases k,
    {
        let d = digit_char(k % 10);
        proof {
            assert(digits@.push(d).reverse() =~= seq![d] + digits@.reverse());
            assert(dec_rep(k as int) + digits@.reverse() =~= dec_rep(k as int / 10) + (seq![d]
                + digits@.reverse()));
        }
        digits.push(d);
        k = k / 10;
    }
    let d = digit_char(k);
    proof {
        assert(digits@.push(d).reverse() =~= seq![d] + digits@.reverse());
        assert(dec_rep(k as int) + digits@.reverse() =~= seq![d] + digits@.reverse());
    }
    digits.push(d);
    let mut v: Vec<char> = Vec::new();
    let mut i: usize = digits.len();
    while i > 0
        invariant
            i <= digits@.len(),
            v@ == digits@.skip(i as int).reverse(),
        decreases i,
    {
        i -= 1;
        let c = digits[i];
        proof {
            assert(digits@.skip(i as int).reverse() =~= digits@.skip(i + 1).reverse().push(c));
        }
        v.push(c);
    }
    proof {
        assert(digits@.skip(0).reverse() =~= digits@.reverse());
    }
    v
}

/// The `"\r\n"` line break as characters.
fn crlf_vec() -> (v: Vec<char>)
    ensures
        v@ == "\r\n"@,
{
    let mut v: Vec<char> = Vec::new();
    v.push('\r');
    v.push('\n');
    proof {
        reveal_strlit("\r\n");
        assert(v@ =~= "\r\n"@);
    }
    v
}

/// The welcome banner as characters.
fn banner_vec(width: usize) -> (v: Vec<char>)
    ensures
        v@ == banner_line(width as nat),
{
    let welcome = "Text Magic editor";
    let wlen = welcome.unicode_len();
    let mut wc = WritingController::new();
    let padding: usize = if width > wlen {
        (width - wlen) / 2
    } else {
        0
    };
    if padding > 0 {
        wc.push('~');
        let mut q: usize = 1;
        proof {
            assert(wc.content@ =~= seq!['~'] + spaces(0));
        }
        while q < padding
            invariant
                1 <= q <= padding,
                wc.content@ == seq!['~'] + spaces((q - 1) as nat),
            decreases padding - q,
        {
            wc.push(' ');
            proof {
                assert((seq!['~'] + spaces((q - 1) as nat)).push(' ') =~= seq!['~'] + spaces(
                    q as nat,
                ));
            }
            q += 1;
        }
    }
    let ghost prefix = wc.content@;
    if wlen <= width {
        wc.push_str(welcome);
    } else {
        let mut q: usize = 0;
        while q < width
            invariant
                q <= width,
                width < wlen == welcome@.len(),
                welcome@ == "Text Magic editor"@,
                wc.content@ == prefix + welcome@.take(q as int),
            decreases width - q,
        {
            let c = welcome.get_char(q);
            proof {
                assert(prefix + welcome@.take(q + 1) =~= (prefix + welcome@.take(
                    q as int,
                )).push(c));
            }
            wc.push(c);
            q += 1;
        }
    }
    proof {
        assert(wc.content@ =~= banner_line(width as nat));
    }
    wc.content
}

impl Controllers {
    /// The text of screen line `i`, exactly as the frame shows it.
    fn line_text(&self, i: usize) -> (v: Vec<char>)
        requires
            self.wf(),
        ensures
            v@ == screen_line(self, i as nat),
    {
        let off = self.cursor_ctrlr.row_offset;
        let count = self.file_ctrlr.count_rows();
        let width = self.cursor_ctrlr.editor_width;
        let past = if off >= count {
            true
        } else {
            i >= count - off
        };
        if past {
            if self.file_ctrlr.filename.is_none() && i == self.cursor_ctrlr.editor_height / 4 {
                banner_vec(width)
            } else {
                let mut v: Vec<char> = Vec::new();
                v.push('~');
                proof {
                    assert(v@ =~= seq!['~']);
                }
                v
            }
        } else {
            let file_row = off + i;
            let ghost rnd = self.file_ctrlr.rows@[file_row as int].render@;
            proof {
                assert(self.file_ctrlr.rows@[file_row as int].wf());
            }
            let rlen = self.file_ctrlr.get_render(file_row).len();
            let coff = self.cursor_ctrlr.column_offset;
            let len: usize = if rlen >= coff {
                if rlen - coff <= width {
                    rlen - coff
                } else {
                    width
                }
            } else {
                0
            };
            let start: usize = if len == 0 {
                0
            } else {
                coff
            };
            let stop: usize = start + len;
            let mut v: Vec<char> = Vec::new();
            let mut q: usize = start;
            while q < stop
                invariant
                    start <= q <= stop,
                    stop == start + len,
                    stop <= rnd.len(),
                    file_row < self.file_ctrlr.rows@.len(),
                    rnd == self.file_ctrlr.rows@[file_row as int].render@,
                    v@ == rnd.subrange(start as int, q as int),
                decreases stop - q,
            {
                let c = self.file_ctrlr.get_render(file_row)[q];
                proof {
                    assert(rnd.subrange(start as int, q + 1) =~= rnd.subrange(
                        start as int,
                        q as int,
                    ).push(c));
                }
                v.push(c);
                q += 1;
            }
            proof {
                assert(v@ =~= visible_slice(rnd, coff as nat, width as nat));
            }
            v
        }
    }

    /// The status bar's characters, exactly one viewport width of them.
    fn status_bar_text(&self) -> (v: Vec<char>)
        requires
            self.wf(),
            self.abs().rows.len() < usize::MAX,
        ensures
            v@ == status_line(self),
    {
        let width = self.cursor_ctrlr.editor_width;
        let mut wc = WritingController::new();
        match &self.file_ctrlr.filename {
            Some(f) => wc.push_str(f.as_str()),
            None => wc.push_str("[No Name]"),
        }
        wc.push_str(" ");
        if self.dirty > 0 {
            wc.push_str("(modified)");
        }
        wc.push_str(" -- ");
        let count = self.file_ctrlr.count_rows();
        let cnt = usize_to_decimal(count);
        wc.push_chars(&cnt);
        wc.push_str(" lines");
        proof {
            reveal_strlit("");
            assert(wc.content@ =~= status_info(self));
        }
        let mut info = wc.content;
        if info.len() > width {
            info.truncate(width);
        }
        let mut li_wc = WritingController::new();
        let pos = usize_to_decimal(self.cursor_ctrlr.cursor_y + 1);
        li_wc.push_chars(&pos);
        li_wc.push_str("/");
        li_wc.push_chars(&cnt);
        let mut li = li_wc.content;
        proof {
            assert(li@ =~= line_indicator(self));
        }
        let shown_len = info.len();
        let li_len = li.len();
        if 1 <= li_len && li_len <= width - shown_len {
            let pad = width - shown_len - li_len;
            let mut p: usize = 0;
            let ghost shown = info@;
            while p < pad
                invariant
                    p <= pad,
                    info@ == shown + spaces(p as nat),
                decreases pad - p,
            {
                info.push(' ');
                proof {
                    assert((shown + spaces(p as nat)).push(' ') =~= shown + spaces((p + 1) as nat));
                }
                p += 1;
            }
            info.append(&mut li);
            proof {
                assert(info@ =~= status_line(self));
            }
        } else {
            let pad = width - shown_len;
            let mut p: usize = 0;
            let ghost shown = info@;
            while p < pad
                invariant
                    p <= pad,
                    info@ == shown + spaces(p as nat),
                decreases pad - p,
            {
                info.push(' ');
                proof {
                    assert((shown + spaces(p as nat)).push(' ') =~= shown + spaces((p + 1) as nat));
                }
                p += 1;
            }
            proof {
                assert(info@ =~= status_line(self));
            }
        }
        info
    }

    /// Brings the scroll state up to date, reads (and possibly expires)
    /// the status message, and emits the draw commands of one full frame.
    pub fn refresh_screen(&mut self, now_ms: u64) -> (ops: Vec<DrawOp>)
        requires
            old(self).wf(),
            old(self).abs().rows.len() < usize::MAX,
        ensures
            final(self).wf(),
            final(self).abs() == old(self).abs(),
            final(self).file_ctrlr == old(self).file_ctrlr,
            final(self).quit_attempts == old(self).quit_attempts,
            final(self).cursor_ctrlr.editor_height == old(self).cursor_ctrlr.editor_height,
            final(self).cursor_ctrlr.editor_width == old(self).cursor_ctrlr.editor_width,
            final(self).cursor_ctrlr.row_offset == scrolled_offset(
                old(self).cursor_ctrlr.row_offset as nat,
                old(self).cursor_ctrlr.cursor_y as nat,
                old(self).cursor_ctrlr.editor_height as nat,
            ),
            final(self).cursor_ctrlr.render_x == (if old(self).abs().cursor_y < old(
                self,
            ).abs().rows.len() {
                width_upto(
                    old(self).abs().rows[old(self).abs().cursor_y as int],
                    old(self).abs().cursor_x as int,
                )
            } else {
                0
            }),
            final(self).cursor_ctrlr.column_offset == scrolled_offset(
                old(self).cursor_ctrlr.column_offset as nat,
                final(self).cursor_ctrlr.render_x as nat,
                old(self).cursor_ctrlr.editor_width as nat,
            ),
            old(self).status_msg.set_time is None ==> final(self).status_msg == old(
                self,
            ).status_msg,
            (old(self).status_msg.set_time matches Some(t) && message_expired(t, now_ms)) ==> (
            final(self).status_msg.message is None && final(self).status_msg.set_time is None),
            (old(self).status_msg.set_time matches Some(t) && !message_expired(t, now_ms))
                ==> final(self).status_msg == old(self).status_msg,
            ops_view(ops@) == frame_ops(final(self), shown_message(old(self), now_ms)),
    {
        self.cursor_ctrlr.scroll(&self.file_ctrlr);
        let msg = self.status_msg.message(now_ms);
        let mut ops: Vec<DrawOp> = Vec::new();
        ops.push(DrawOp::HideCursor);
        ops.push(DrawOp::MoveTo(0, 0));
        let ghost head = ops_view(ops@);
        proof {
            assert(head =~~= seq![DrawOpV::HideCursor, DrawOpV::MoveTo(0, 0)]);
        }
        let h = self.cursor_ctrlr.editor_height;
        let mut i: usize = 0;
        while i < h
            invariant
                i <= h,
                h == self.cursor_ctrlr.editor_height,
                self.wf(),
                ops_view(ops@) == head + rows_ops(self, i as nat),
                head == seq![DrawOpV::HideCursor, DrawOpV::MoveTo(0, 0)],
            decreases h - i,
        {
            let ghost ops0 = ops@;
            let line = self.line_text(i);
            let ghost line_v = line@;
            let nl = crlf_vec();
            let ghost nl_v = nl@;
            ops.push(DrawOp::Text(line));
            ops.push(DrawOp::ClearRestOfLine);
            ops.push(DrawOp::Text(nl));
            proof {
                let triple = seq![
                    DrawOpV::Text(screen_line(self, i as nat)),
                    DrawOpV::ClearRestOfLine,
                    DrawOpV::Text("\r\n"@),
                ];
                assert(rows_ops(self, (i + 1) as nat) == rows_ops(self, i as nat) + triple);
                assert(ops_view(ops@) =~~= ops_view(ops0) + triple);
                assert(ops_view(ops@) =~~= head + rows_ops(self, (i + 1) as nat));
            }
            i += 1;
        }
        ops.push(DrawOp::ReverseVideo);
        ops.push(DrawOp::Text(self.status_bar_text()));
        ops.push(DrawOp::NormalVideo);
        ops.push(DrawOp::Text(crlf_vec()));
        ops.push(DrawOp::ClearRestOfLine);
        match msg {
            Some(m) => {
                let width = self.cursor_ctrlr.editor_width;
                let mut mv = WritingController::new();
                mv.push_str(m.as_str());
                let mut mvec = mv.content;
                if mvec.len() > width {
                    mvec.truncate(width);
                }
                ops.push(DrawOp::Text(mvec));
            },
            None => {},
        }
        ops.push(
            DrawOp::MoveTo(
                self.cursor_ctrlr.render_x - self.cursor_ctrlr.column_offset,
                self.cursor_ctrlr.cursor_y - self.cursor_ctrlr.row_offset,
            ),
        );
        ops.push(DrawOp::ShowCursor);
        proof {
            assert(ops_view(ops@) =~~= frame_ops(
                final(self),
                shown_message(old(self), now_ms),
            ));
        }
        ops
    }
}

/// The message text a frame painted at `now_ms` shows, if any: the status
/// message, unless it has expired.
pub open spec fn shown_message(c: &Controllers, now_ms: u64) -> Option<Seq<char>> {
    match c.status_msg.set_time {
        Some(t) => if message_expired(t, now_ms) {
            None
        } else {
            match c.status_msg.message {
                Some(m) => Some(m@),
                None => None,
            }
        },
        None => None,
    }
}

} // verus!
