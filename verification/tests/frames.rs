use text_magic::controllers::Controllers;
use text_magic::file::FileController;
use text_magic::render::DrawOp;

fn chars(s: &str) -> Vec<char> {
    s.chars().collect()
}

fn string_of(v: &[char]) -> String {
    v.iter().collect()
}

#[test]
fn empty_buffer_frame_is_exact() {
    let fc = FileController::new();
    let mut ed = Controllers::new((10, 3), fc, 0);
    let ops = ed.refresh_screen(0);
    let expected = vec![
        DrawOp::HideCursor,
        DrawOp::MoveTo(0, 0),
        // height / 4 == 0: the banner sits on the first line, clipped to
        // the 10-column viewport.
        DrawOp::Text(chars("Text Magic")),
        DrawOp::ClearRestOfLine,
        DrawOp::Text(chars("\r\n")),
        DrawOp::Text(chars("~")),
        DrawOp::ClearRestOfLine,
        DrawOp::Text(chars("\r\n")),
        DrawOp::Text(chars("~")),
        DrawOp::ClearRestOfLine,
        DrawOp::Text(chars("\r\n")),
        DrawOp::ReverseVideo,
        DrawOp::Text(chars("[No Name] ")),
        DrawOp::NormalVideo,
        DrawOp::Text(chars("\r\n")),
        DrawOp::ClearRestOfLine,
        DrawOp::Text(chars("Help: Ctrl")),
        DrawOp::MoveTo(0, 0),
        DrawOp::ShowCursor,
    ];
    assert_eq!(ops, expected);
}

#[test]
fn status_bar_right_aligns_position() {
    let mut fc = FileController::from_text(String::from("f"), &chars("alpha\nbeta"));
    fc.filename = Some(String::from("f"));
    let mut ed = Controllers::new((20, 2), fc, 0);
    let ops = ed.refresh_screen(10_000);
    // Status info "f  -- 2 lines" is 13 characters; "1/2" is right-aligned
    // in the 20 columns; the help message has expired by now.
    let status = chars("f  -- 2 lines    1/2");
    assert!(ops.contains(&DrawOp::Text(status)));
    assert!(!ops
        .iter()
        .any(|op| matches!(op, DrawOp::Text(t) if string_of(t).starts_with("Help"))));
}

#[test]
fn horizontal_scroll_clips_long_row() {
    let fc = FileController::from_text(String::from("f"), &chars("abcdefgh"));
    let mut ed = Controllers::new((5, 2), fc, 0);
    ed.move_cursor(text_magic::controllers::CursorMove::End, false);
    let ops = ed.refresh_screen(0);
    assert_eq!(ed.cursor_ctrlr.render_x, 8);
    assert_eq!(ed.cursor_ctrlr.column_offset, 4);
    // The viewport shows the last four characters, cursor at its right edge.
    assert!(ops.contains(&DrawOp::Text(chars("efgh"))));
    assert!(ops.contains(&DrawOp::MoveTo(4, 0)));
}

#[test]
fn vertical_scroll_follows_cursor() {
    let fc = FileController::from_text(String::from("f"), &chars("a\nb\nc\nd\ne"));
    let mut ed = Controllers::new((10, 2), fc, 0);
    for _ in 0..4 {
        ed.move_cursor(text_magic::controllers::CursorMove::Down, false);
    }
    let _ = ed.refresh_screen(0);
    // Cursor on row 4 with a 2-row viewport: the window starts at row 3.
    assert_eq!(ed.cursor_ctrlr.row_offset, 3);
    assert_eq!(ed.cursor_ctrlr.cursor_y, 4);
}

#[test]
fn wrap_moves_trailing_word_to_new_row() {
    // Width 8 wraps an insertion at column 7: the trailing word (with the
    // typed character) moves to a fresh row below.
    let fc = FileController::from_text(String::from("f"), &chars("one two"));
    let mut ed = Controllers::new((8, 4), fc, 0);
    ed.cursor_ctrlr.cursor_x = 7;
    ed.insert_char('s');
    assert_eq!(ed.file_ctrlr.count_rows(), 2);
    assert_eq!(string_of(&ed.file_ctrlr.get_editor_row(0).content), "one ");
    assert_eq!(string_of(&ed.file_ctrlr.get_editor_row(1).content), "twos");
    assert_eq!(ed.cursor_ctrlr.cursor_x, 4);
    assert_eq!(ed.cursor_ctrlr.cursor_y, 1);
}

#[test]
fn wrap_on_space_opens_empty_row() {
    let fc = FileController::from_text(String::from("f"), &chars("one two"));
    let mut ed = Controllers::new((8, 4), fc, 0);
    ed.cursor_ctrlr.cursor_x = 7;
    ed.insert_char(' ');
    assert_eq!(ed.file_ctrlr.count_rows(), 2);
    assert_eq!(string_of(&ed.file_ctrlr.get_editor_row(0).content), "one two ");
    assert_eq!(string_of(&ed.file_ctrlr.get_editor_row(1).content), "");
    assert_eq!(ed.cursor_ctrlr.cursor_x, 0);
    assert_eq!(ed.cursor_ctrlr.cursor_y, 1);
}

#[test]
fn wrap_of_unbroken_word_inserts_plainly() {
    let fc = FileController::from_text(String::from("f"), &chars("abcdefg"));
    let mut ed = Controllers::new((8, 4), fc, 0);
    ed.cursor_ctrlr.cursor_x = 7;
    ed.insert_char('h');
    assert_eq!(ed.file_ctrlr.count_rows(), 1);
    assert_eq!(string_of(&ed.file_ctrlr.get_editor_row(0).content), "abcdefgh");
    assert_eq!(ed.cursor_ctrlr.cursor_x, 8);
    assert_eq!(ed.cursor_ctrlr.cursor_y, 0);
}

#[test]
fn banner_is_centered_when_it_fits() {
    let fc = FileController::new();
    let mut ed = Controllers::new((21, 3), fc, 0);
    let ops = ed.refresh_screen(0);
    // Padding is (21 - 17) / 2 = 2: a tilde, one space, then the greeting.
    assert_eq!(ops[2], DrawOp::Text(chars("~ Text Magic editor")));
}

#[test]
fn status_message_expires_after_five_seconds() {
    let fc = FileController::new();
    let mut ed = Controllers::new((10, 3), fc, 0);
    ed.set_status_msg(String::from("hi"), 1_000);
    let ops = ed.refresh_screen(5_999);
    assert!(ops.contains(&DrawOp::Text(chars("hi"))));
    let ops = ed.refresh_screen(6_001);
    assert!(!ops.contains(&DrawOp::Text(chars("hi"))));
}
