use text_magic::controllers::{Controllers, CursorMove, EditorCommand, Step};
use text_magic::file::{EditorError, FileController};
use text_magic::position::CursorController;
use text_magic::render::usize_to_decimal;

fn chars(s: &str) -> Vec<char> {
    s.chars().collect()
}

fn string_of(v: &[char]) -> String {
    v.iter().collect()
}

fn editor_with_rows(rows: &[&str], width: usize, height: usize) -> Controllers {
    let mut fc = FileController::new();
    for (i, r) in rows.iter().enumerate() {
        fc.insert_row(i, chars(r));
    }
    Controllers::new((width, height), fc, 0)
}

fn row_string(ed: &Controllers, i: usize) -> String {
    string_of(&ed.file_ctrlr.get_editor_row(i).content)
}

#[test]
fn insert_then_enter_then_insert_builds_two_rows() {
    // Empty buffer, type "Hi", Enter, "there": two rows, cursor at (5, 1).
    let mut ed = editor_with_rows(&[], 80, 24);
    ed.insert_char('H');
    ed.insert_char('i');
    ed.insert_newline();
    for c in "there".chars() {
        ed.insert_char(c);
    }
    assert_eq!(ed.file_ctrlr.count_rows(), 2);
    assert_eq!(row_string(&ed, 0), "Hi");
    assert_eq!(row_string(&ed, 1), "there");
    assert_eq!(ed.cursor_ctrlr.cursor_x, 5);
    assert_eq!(ed.cursor_ctrlr.cursor_y, 1);
    assert!(ed.is_dirty());
}

#[test]
fn tab_renders_to_next_tab_stop() {
    // Row "a\tb" with tab stop 4 renders as "a   b".
    let mut fc = FileController::new();
    fc.insert_row(0, chars("a\tb"));
    assert_eq!(string_of(fc.get_render(0)), "a   b");
}

#[test]
fn rendered_column_matches_tab_stops() {
    let mut fc = FileController::new();
    fc.insert_row(0, chars("a\tb"));
    let mut cc = CursorController::new((80, 24));
    cc.cursor_x = 1;
    assert_eq!(cc.get_render_x(fc.get_editor_row(0)), 1);
    cc.cursor_x = 2;
    assert_eq!(cc.get_render_x(fc.get_editor_row(0)), 4);
    cc.cursor_x = 3;
    assert_eq!(cc.get_render_x(fc.get_editor_row(0)), 5);
}

#[test]
fn save_joins_rows_with_newlines() {
    // Rows ["foo", "bar"] save as the 7 characters "foo\nbar".
    let mut fc = FileController::from_text(String::from("t.txt"), &chars(""));
    fc.insert_row(0, chars("foo"));
    fc.insert_row(1, chars("bar"));
    let saved = fc.save().unwrap();
    assert_eq!(saved.len(), 7);
    assert_eq!(string_of(&saved), "foo\nbar");
}

#[test]
fn load_round_trips_saved_text() {
    let fc = FileController::from_text(String::from("t.txt"), &chars("foo\nbar"));
    assert_eq!(fc.count_rows(), 2);
    assert_eq!(string_of(&fc.get_editor_row(0).content), "foo");
    assert_eq!(string_of(&fc.get_editor_row(1).content), "bar");
}

#[test]
fn load_handles_crlf_and_trailing_newline() {
    let fc = FileController::from_text(String::from("t.txt"), &chars("one\r\ntwo\n"));
    assert_eq!(fc.count_rows(), 2);
    assert_eq!(string_of(&fc.get_editor_row(0).content), "one");
    assert_eq!(string_of(&fc.get_editor_row(1).content), "two");
}

#[test]
fn load_of_empty_text_gives_no_rows() {
    let fc = FileController::from_text(String::from("t.txt"), &chars(""));
    assert_eq!(fc.count_rows(), 0);
}

#[test]
fn delete_at_origin_is_a_no_op() {
    // Delete at row 0, column 0: no state change, no error.
    let mut ed = editor_with_rows(&["abc"], 80, 24);
    ed.delete_char(false);
    assert_eq!(ed.file_ctrlr.count_rows(), 1);
    assert_eq!(row_string(&ed, 0), "abc");
    assert_eq!(ed.cursor_ctrlr.cursor_x, 0);
    assert_eq!(ed.cursor_ctrlr.cursor_y, 0);
    assert!(!ed.is_dirty());
}

#[test]
fn insert_then_delete_restores_row() {
    let mut ed = editor_with_rows(&["hello"], 80, 24);
    ed.move_cursor(CursorMove::Right, false);
    ed.move_cursor(CursorMove::Right, false);
    ed.insert_char('X');
    assert_eq!(row_string(&ed, 0), "heXllo");
    ed.delete_char(false);
    assert_eq!(row_string(&ed, 0), "hello");
    assert_eq!(ed.cursor_ctrlr.cursor_x, 2);
    assert_eq!(ed.cursor_ctrlr.cursor_y, 0);
}

#[test]
fn newline_then_delete_restores_row() {
    let mut ed = editor_with_rows(&["hello"], 80, 24);
    ed.move_cursor(CursorMove::End, false);
    ed.cursor_ctrlr.cursor_x = 2;
    ed.insert_newline();
    assert_eq!(ed.file_ctrlr.count_rows(), 2);
    assert_eq!(row_string(&ed, 0), "he");
    assert_eq!(row_string(&ed, 1), "llo");
    assert_eq!((ed.cursor_ctrlr.cursor_x, ed.cursor_ctrlr.cursor_y), (0, 1));
    ed.delete_char(false);
    assert_eq!(ed.file_ctrlr.count_rows(), 1);
    assert_eq!(row_string(&ed, 0), "hello");
    assert_eq!((ed.cursor_ctrlr.cursor_x, ed.cursor_ctrlr.cursor_y), (2, 0));
}

#[test]
fn delete_at_column_zero_joins_rows() {
    let mut ed = editor_with_rows(&["ab", "cd"], 80, 24);
    ed.cursor_ctrlr.cursor_y = 1;
    ed.delete_char(false);
    assert_eq!(ed.file_ctrlr.count_rows(), 1);
    assert_eq!(row_string(&ed, 0), "abcd");
    assert_eq!((ed.cursor_ctrlr.cursor_x, ed.cursor_ctrlr.cursor_y), (2, 0));
}

#[test]
fn word_delete_removes_previous_word_and_boundary() {
    let mut ed = editor_with_rows(&["one two"], 80, 24);
    ed.cursor_ctrlr.cursor_x = 7;
    ed.delete_char(true);
    // The word "two" (3 characters) plus its boundary: 4 deletes.
    assert_eq!(row_string(&ed, 0), "one");
    assert_eq!(ed.cursor_ctrlr.cursor_x, 3);
}

#[test]
fn cursor_moves_stay_in_bounds() {
    let mut ed = editor_with_rows(&["long line here", "x"], 80, 24);
    let moves = [
        CursorMove::End,
        CursorMove::Down,
        CursorMove::Down,
        CursorMove::Right,
        CursorMove::Up,
        CursorMove::Left,
        CursorMove::Home,
        CursorMove::PageDown,
        CursorMove::PageUp,
        CursorMove::Down,
        CursorMove::End,
    ];
    for m in moves {
        ed.move_cursor(m, false);
        let count = ed.file_ctrlr.count_rows();
        assert!(ed.cursor_ctrlr.cursor_y <= count);
        let limit = if ed.cursor_ctrlr.cursor_y < count {
            ed.file_ctrlr.get_editor_row(ed.cursor_ctrlr.cursor_y).len()
        } else {
            0
        };
        assert!(ed.cursor_ctrlr.cursor_x <= limit);
    }
}

#[test]
fn left_at_column_zero_wraps_to_previous_row_end() {
    let mut ed = editor_with_rows(&["abc", "d"], 80, 24);
    ed.cursor_ctrlr.cursor_y = 1;
    ed.move_cursor(CursorMove::Left, false);
    assert_eq!((ed.cursor_ctrlr.cursor_x, ed.cursor_ctrlr.cursor_y), (3, 0));
}

#[test]
fn right_at_row_end_wraps_to_next_row_start() {
    let mut ed = editor_with_rows(&["ab", "cd"], 80, 24);
    ed.cursor_ctrlr.cursor_x = 2;
    ed.move_cursor(CursorMove::Right, false);
    assert_eq!((ed.cursor_ctrlr.cursor_x, ed.cursor_ctrlr.cursor_y), (0, 1));
}

#[test]
fn word_move_right_jumps_past_word() {
    let mut ed = editor_with_rows(&["one two three"], 80, 24);
    ed.move_cursor(CursorMove::Right, true);
    // "one" has 3 characters; plus the boundary the cursor lands at 4.
    assert_eq!(ed.cursor_ctrlr.cursor_x, 4);
    assert_eq!(ed.cursor_ctrlr.cursor_y, 0);
}

#[test]
fn save_without_filename_reports_no_associated_path() {
    let ed = editor_with_rows(&["x"], 80, 24);
    assert_eq!(ed.save().unwrap_err(), EditorError::NoAssociatedPath);
}

#[test]
fn decimal_conversion_is_exact() {
    assert_eq!(string_of(&usize_to_decimal(0)), "0");
    assert_eq!(string_of(&usize_to_decimal(7)), "7");
    assert_eq!(string_of(&usize_to_decimal(10)), "10");
    assert_eq!(string_of(&usize_to_decimal(1234)), "1234");
    assert_eq!(string_of(&usize_to_decimal(90210)), "90210");
}

#[test]
fn quit_needs_three_confirmations_when_dirty() {
    let mut ed = editor_with_rows(&[], 80, 24);
    ed.insert_char('a');
    assert!(!ed.attempt_to_quit(0));
    assert!(!ed.attempt_to_quit(0));
    assert!(!ed.attempt_to_quit(0));
    assert!(ed.attempt_to_quit(0));
}

#[test]
fn quit_is_immediate_when_clean() {
    let mut ed = editor_with_rows(&["x"], 80, 24);
    assert!(ed.attempt_to_quit(0));
}

#[test]
fn process_save_without_filename_asks_for_one() {
    let mut ed = editor_with_rows(&["x"], 80, 24);
    let step = ed.process_command(EditorCommand::Save, 0);
    assert!(matches!(step, Step::NeedFilename));
    ed.set_filename(Some(String::from("out.txt")));
    match ed.process_command(EditorCommand::Save, 0) {
        Step::Write(v) => assert_eq!(string_of(&v), "x"),
        other => panic!("expected a write, got {:?}", other),
    }
}

#[test]
fn mark_saved_clears_dirty() {
    let mut ed = editor_with_rows(&[], 80, 24);
    ed.insert_char('a');
    assert!(ed.is_dirty());
    ed.mark_saved();
    assert!(!ed.is_dirty());
}

#[test]
fn forward_delete_removes_character_under_cursor() {
    let mut ed = editor_with_rows(&["abc"], 80, 24);
    let step = ed.process_command(EditorCommand::ForwardDelete(false), 0);
    assert!(matches!(step, Step::Continue));
    assert_eq!(row_string(&ed, 0), "bc");
    assert_eq!((ed.cursor_ctrlr.cursor_x, ed.cursor_ctrlr.cursor_y), (0, 0));
}

#[test]
fn word_move_up_hops_five_rows() {
    let mut ed = editor_with_rows(&["a", "b", "c", "d", "e", "f", "g"], 80, 24);
    for _ in 0..6 {
        ed.move_cursor(CursorMove::Down, false);
    }
    assert_eq!(ed.cursor_ctrlr.cursor_y, 6);
    ed.move_cursor(CursorMove::Up, true);
    assert_eq!(ed.cursor_ctrlr.cursor_y, 1);
}

#[test]
fn quit_warning_counts_down() {
    let mut ed = editor_with_rows(&[], 80, 24);
    ed.insert_char('a');
    assert!(!ed.attempt_to_quit(0));
    let msg = ed.status_msg.message(0).unwrap();
    assert_eq!(
        msg,
        "WARNING! File has unsaved changes. Press Ctrl+C 3 more times to quit \
         without saving or Ctrl+S to save first."
    );
    assert!(!ed.attempt_to_quit(0));
    let msg = ed.status_msg.message(0).unwrap();
    assert!(msg.contains("Ctrl+C 2 more times"));
}

#[test]
fn status_message_read_is_lazy() {
    let mut sm = text_magic::writing::StatusMessage::new(String::from("hello"), 100);
    assert_eq!(sm.message(5_100).as_deref(), Some("hello"));
    assert_eq!(sm.message(5_101), None);
    // Once expired and read, the message is gone for good.
    assert_eq!(sm.message(100), None);
}

#[test]
fn writing_buffer_accumulates_pushes() {
    let mut wc = text_magic::writing::WritingController::new();
    wc.push('a');
    wc.push_str("bc");
    wc.push('\t');
    assert_eq!(string_of(&wc.content), "abc\t");
}

#[test]
fn pos_reports_render_column_and_row() {
    let mut fc = FileController::new();
    fc.insert_row(0, chars("\tx"));
    let mut cc = CursorController::new((80, 24));
    cc.cursor_x = 1;
    cc.scroll(&fc);
    assert_eq!(cc.pos(), (4, 0));
}

#[test]
fn crash_guard_offers_contents_only_while_dirty() {
    let mut ed = editor_with_rows(&["keep", "me"], 80, 24);
    assert!(ed.crash_save_contents().is_none());
    ed.insert_char('x');
    let contents = ed.crash_save_contents().unwrap();
    assert_eq!(string_of(&contents), "xkeep\nme");
}
