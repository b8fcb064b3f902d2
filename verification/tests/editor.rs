use chat_editor::buffer::LineBuffer;
use chat_editor::engine::apply_event;
use chat_editor::engine::suppresses_default;
use chat_editor::engine::EditCommand;
use chat_editor::engine::InputEvent;
use chat_editor::engine::KeyCode;
use chat_editor::engine::Modifiers;
use chat_editor::text::caret_split;
use chat_editor::text::contains_newline;
use chat_editor::text::join_lines;
use chat_editor::text::split_newlines;

fn no_mods() -> Modifiers {
    Modifiers { shift: false, ctrl: false, meta: false }
}

fn shift() -> Modifiers {
    Modifiers { shift: true, ctrl: false, meta: false }
}

fn lines_of(buf: &LineBuffer) -> Vec<String> {
    let mut out: Vec<String> = Vec::new();
    let mut i = 0;
    while i < buf.line_count() {
        out.push(buf.line_at(i).clone());
        i += 1;
    }
    out
}

/// Builds a buffer from `lines`, with the given active line and cursor,
/// using only public editing operations.
fn build(lines: &[&str], active: usize, cursor: usize) -> LineBuffer {
    let mut buf = LineBuffer::new();
    let mut i = 0;
    while i < lines.len() {
        if i > 0 {
            buf.split_line();
        }
        buf.insert_text(lines[i]);
        i += 1;
    }
    buf.set_active_line(active);
    let mut c = 0;
    while c < cursor {
        buf.move_right();
        c += 1;
    }
    buf
}

#[test]
fn fresh_buffer_is_one_empty_line() {
    let buf = LineBuffer::new();
    assert_eq!(buf.line_count(), 1);
    assert_eq!(buf.line_at(0).as_str(), "");
    assert_eq!(buf.active_index(), 0);
    assert_eq!(buf.cursor_position(), 0);
}

#[test]
fn invariant_holds_through_an_event_storm() {
    // Drive the buffer through a long mixed sequence and check the
    // well-formedness bounds the whole way.
    let mut buf = LineBuffer::new();
    let events = [
        InputEvent::Character(String::from("ab"), no_mods()),
        InputEvent::Key(KeyCode::Enter, shift()),
        InputEvent::Character(String::from("cd"), no_mods()),
        InputEvent::Key(KeyCode::ArrowUp, no_mods()),
        InputEvent::Key(KeyCode::End, no_mods()),
        InputEvent::Key(KeyCode::Delete, no_mods()),
        InputEvent::Key(KeyCode::Backspace, no_mods()),
        InputEvent::Paste(String::from("x\ny\nz")),
        InputEvent::Key(KeyCode::Home, no_mods()),
        InputEvent::Key(KeyCode::ArrowLeft, no_mods()),
        InputEvent::Key(KeyCode::ArrowRight, no_mods()),
        InputEvent::Key(KeyCode::ArrowDown, no_mods()),
        InputEvent::Key(KeyCode::Backspace, no_mods()),
    ];
    for evt in events.iter() {
        let _ = apply_event(&mut buf, evt);
        assert!(buf.line_count() >= 1);
        assert!(buf.active_index() < buf.line_count());
        let line = buf.line_at(buf.active_index());
        assert!(buf.cursor_position() <= line.chars().count());
    }
}

#[test]
fn insert_then_backspace_restores_line_and_cursor() {
    let mut buf = build(&["hello"], 0, 2);
    buf.insert_text("XY");
    assert_eq!(buf.line_at(0).as_str(), "heXYllo");
    assert_eq!(buf.cursor_position(), 4);
    buf.delete_char_before();
    buf.delete_char_before();
    assert_eq!(buf.line_at(0).as_str(), "hello");
    assert_eq!(buf.cursor_position(), 2);
    assert_eq!(buf.line_count(), 1);
}

#[test]
fn split_then_merge_restores_line_and_cursor() {
    let mut buf = build(&["abcdef"], 0, 3);
    buf.split_line();
    assert_eq!(lines_of(&buf), vec!["abc".to_string(), "def".to_string()]);
    assert_eq!(buf.active_index(), 1);
    assert_eq!(buf.cursor_position(), 0);
    buf.merge_with_previous();
    assert_eq!(lines_of(&buf), vec!["abcdef".to_string()]);
    assert_eq!(buf.active_index(), 0);
    assert_eq!(buf.cursor_position(), 3);
}

#[test]
fn paste_with_newline_decomposes() {
    let mut buf = build(&["axd"], 0, 1);
    buf.paste("b\nc");
    assert_eq!(lines_of(&buf), vec!["ab".to_string(), "cxd".to_string()]);
    assert_eq!(buf.active_index(), 1);
    assert_eq!(buf.cursor_position(), 1);
}

#[test]
fn paste_without_newline_inserts() {
    let mut buf = build(&["ab"], 0, 1);
    buf.paste("Z");
    assert_eq!(lines_of(&buf), vec!["aZb".to_string()]);
    assert_eq!(buf.line_count(), 1);
    assert_eq!(buf.cursor_position(), 2);
}

#[test]
fn paste_consecutive_newlines_keeps_blank_lines() {
    let mut buf = build(&["ab"], 0, 1);
    buf.paste("\n\n");
    assert_eq!(
        lines_of(&buf),
        vec!["a".to_string(), "".to_string(), "b".to_string()]
    );
    assert_eq!(buf.active_index(), 2);
    assert_eq!(buf.cursor_position(), 0);
}

#[test]
fn paste_empty_payload_changes_nothing() {
    let mut buf = build(&["ab"], 0, 1);
    buf.paste("");
    assert_eq!(lines_of(&buf), vec!["ab".to_string()]);
    assert_eq!(buf.active_index(), 0);
    assert_eq!(buf.cursor_position(), 1);
}

#[test]
fn paste_with_middle_chunks() {
    let mut buf = build(&["start end"], 0, 6);
    buf.paste("one\ntwo\nthree");
    assert_eq!(
        lines_of(&buf),
        vec![
            "start one".to_string(),
            "two".to_string(),
            "threeend".to_string()
        ]
    );
    assert_eq!(buf.active_index(), 2);
    assert_eq!(buf.cursor_position(), 5);
}

#[test]
fn submit_clears_state_and_joins_lines() {
    let mut buf = build(&["foo", "bar"], 1, 2);
    let cmd = apply_event(&mut buf, &InputEvent::Key(KeyCode::Enter, no_mods()));
    match cmd {
        EditCommand::Submit(content) => assert_eq!(content.as_str(), "foo\nbar"),
        EditCommand::Nothing => panic!("Enter without shift must submit"),
    }
    assert_eq!(buf.line_count(), 1);
    assert_eq!(buf.line_at(0).as_str(), "");
    assert_eq!(buf.active_index(), 0);
    assert_eq!(buf.cursor_position(), 0);
}

#[test]
fn submit_on_empty_buffer_sends_empty_content() {
    let mut buf = LineBuffer::new();
    let cmd = apply_event(&mut buf, &InputEvent::Key(KeyCode::Enter, no_mods()));
    match cmd {
        EditCommand::Submit(content) => assert_eq!(content.as_str(), ""),
        EditCommand::Nothing => panic!("Enter without shift must submit"),
    }
}

#[test]
fn submitted_content_splits_back_into_lines() {
    let mut buf = build(&["one", "", "three"], 0, 0);
    let cmd = apply_event(&mut buf, &InputEvent::Key(KeyCode::Enter, no_mods()));
    match cmd {
        EditCommand::Submit(content) => {
            assert_eq!(content.as_str(), "one\n\nthree");
            assert_eq!(
                split_newlines(content.as_str()),
                vec!["one".to_string(), "".to_string(), "three".to_string()]
            );
        }
        EditCommand::Nothing => panic!("Enter without shift must submit"),
    }
}

#[test]
fn shift_enter_splits_instead_of_submitting() {
    let mut buf = build(&["foobar"], 0, 3);
    let cmd = apply_event(&mut buf, &InputEvent::Key(KeyCode::Enter, shift()));
    match cmd {
        EditCommand::Nothing => {}
        EditCommand::Submit(_) => panic!("shift+Enter must not submit"),
    }
    assert_eq!(lines_of(&buf), vec!["foo".to_string(), "bar".to_string()]);
}

#[test]
fn vertical_move_resets_column() {
    let mut buf = build(&["first", "second"], 1, 5);
    assert_eq!(buf.cursor_position(), 5);
    buf.move_up();
    assert_eq!(buf.active_index(), 0);
    assert_eq!(buf.cursor_position(), 0);
    buf.move_down();
    assert_eq!(buf.active_index(), 1);
    assert_eq!(buf.cursor_position(), 0);
}

#[test]
fn vertical_moves_at_the_edges_do_nothing() {
    let mut buf = build(&["only"], 0, 2);
    buf.move_up();
    assert_eq!(buf.active_index(), 0);
    assert_eq!(buf.cursor_position(), 2);
    buf.move_down();
    assert_eq!(buf.active_index(), 0);
    assert_eq!(buf.cursor_position(), 2);
}

#[test]
fn backspace_at_line_start_merges_with_previous() {
    let mut buf = build(&["foo", "bar"], 1, 0);
    let cmd = apply_event(&mut buf, &InputEvent::Key(KeyCode::Backspace, no_mods()));
    match cmd {
        EditCommand::Nothing => {}
        EditCommand::Submit(_) => panic!("Backspace must not submit"),
    }
    assert_eq!(lines_of(&buf), vec!["foobar".to_string()]);
    assert_eq!(buf.active_index(), 0);
    assert_eq!(buf.cursor_position(), 3);
}

#[test]
fn backspace_at_buffer_start_does_nothing() {
    let mut buf = build(&["abc"], 0, 0);
    buf.delete_char_before();
    assert_eq!(lines_of(&buf), vec!["abc".to_string()]);
    assert_eq!(buf.cursor_position(), 0);
}

#[test]
fn delete_at_line_end_merges_with_next_keeping_cursor() {
    let mut buf = build(&["ab", "cd"], 0, 2);
    buf.delete_char_after();
    assert_eq!(lines_of(&buf), vec!["abcd".to_string()]);
    assert_eq!(buf.active_index(), 0);
    assert_eq!(buf.cursor_position(), 2);
}

#[test]
fn delete_at_buffer_end_does_nothing() {
    let mut buf = build(&["ab"], 0, 2);
    buf.delete_char_after();
    assert_eq!(lines_of(&buf), vec!["ab".to_string()]);
    assert_eq!(buf.cursor_position(), 2);
}

#[test]
fn arrows_cross_line_boundaries() {
    let mut buf = build(&["ab", "cd"], 1, 0);
    buf.move_left();
    assert_eq!(buf.active_index(), 0);
    assert_eq!(buf.cursor_position(), 2);
    buf.move_right();
    assert_eq!(buf.active_index(), 1);
    assert_eq!(buf.cursor_position(), 0);
}

#[test]
fn home_and_end_move_within_the_line() {
    let mut buf = build(&["abcd"], 0, 2);
    buf.move_home();
    assert_eq!(buf.cursor_position(), 0);
    buf.move_end();
    assert_eq!(buf.cursor_position(), 4);
}

#[test]
fn clicking_a_line_selects_it_at_column_zero() {
    let mut buf = build(&["ab", "cd", "ef"], 2, 1);
    buf.set_active_line(0);
    assert_eq!(buf.active_index(), 0);
    assert_eq!(buf.cursor_position(), 0);
    buf.set_active_line(9);
    assert_eq!(buf.active_index(), 0);
}

#[test]
fn horizontal_moves_at_the_buffer_edges_do_nothing() {
    let mut buf = build(&["ab"], 0, 0);
    buf.move_left();
    assert_eq!(buf.active_index(), 0);
    assert_eq!(buf.cursor_position(), 0);
    buf.move_end();
    buf.move_right();
    assert_eq!(buf.active_index(), 0);
    assert_eq!(buf.cursor_position(), 2);
}

#[test]
fn snapshot_reflects_the_buffer_state() {
    let buf = build(&["ab", "cd"], 1, 1);
    let (lines, active, cursor) = buf.snapshot();
    assert_eq!(lines, vec!["ab".to_string(), "cd".to_string()]);
    assert_eq!(active, 1);
    assert_eq!(cursor, 1);
}

#[test]
fn clear_resets_to_the_initial_state() {
    let mut buf = build(&["ab", "cd"], 1, 1);
    buf.clear();
    assert_eq!(buf.line_count(), 1);
    assert_eq!(buf.line_at(0).as_str(), "");
    assert_eq!(buf.active_index(), 0);
    assert_eq!(buf.cursor_position(), 0);
}

#[test]
fn multibyte_characters_count_as_single_positions() {
    let mut buf = LineBuffer::new();
    buf.insert_text("héllo");
    assert_eq!(buf.cursor_position(), 5);
    buf.delete_char_before();
    assert_eq!(buf.line_at(0).as_str(), "héll");
    buf.move_home();
    buf.move_right();
    buf.move_right();
    buf.delete_char_before();
    assert_eq!(buf.line_at(0).as_str(), "hll");
    assert_eq!(buf.cursor_position(), 1);
}

#[test]
fn paste_into_multibyte_line() {
    let mut buf = build(&["äö"], 0, 1);
    buf.paste("x\ny");
    assert_eq!(lines_of(&buf), vec!["äx".to_string(), "yö".to_string()]);
    assert_eq!(buf.active_index(), 1);
    assert_eq!(buf.cursor_position(), 1);
}

#[test]
fn character_event_inserts_at_cursor() {
    let mut buf = build(&["ac"], 0, 1);
    let cmd = apply_event(
        &mut buf,
        &InputEvent::Character(String::from("b"), no_mods()),
    );
    match cmd {
        EditCommand::Nothing => {}
        EditCommand::Submit(_) => panic!("a character must not submit"),
    }
    assert_eq!(buf.line_at(0).as_str(), "abc");
    assert_eq!(buf.cursor_position(), 2);
}

#[test]
fn character_event_with_newline_is_a_no_op() {
    let mut buf = build(&["ab"], 0, 1);
    let _ = apply_event(
        &mut buf,
        &InputEvent::Character(String::from("x\ny"), no_mods()),
    );
    assert_eq!(lines_of(&buf), vec!["ab".to_string()]);
    assert_eq!(buf.cursor_position(), 1);
}

#[test]
fn paste_shortcut_key_event_is_suppressed() {
    let ctrl_v = InputEvent::Character(
        String::from("v"),
        Modifiers { shift: false, ctrl: true, meta: false },
    );
    let meta_v = InputEvent::Character(
        String::from("v"),
        Modifiers { shift: false, ctrl: false, meta: true },
    );
    assert!(suppresses_default(&ctrl_v));
    assert!(suppresses_default(&meta_v));
    assert!(suppresses_default(&InputEvent::Key(KeyCode::Enter, shift())));
    assert!(!suppresses_default(&InputEvent::Key(KeyCode::Enter, no_mods())));
    assert!(!suppresses_default(&InputEvent::Character(
        String::from("v"),
        no_mods()
    )));
    assert!(!suppresses_default(&InputEvent::Paste(String::from("v"))));

    let mut buf = build(&["ab"], 0, 1);
    let _ = apply_event(&mut buf, &ctrl_v);
    assert_eq!(lines_of(&buf), vec!["ab".to_string()]);
    let _ = apply_event(
        &mut buf,
        &InputEvent::Character(String::from("v"), no_mods()),
    );
    assert_eq!(lines_of(&buf), vec!["avb".to_string()]);
}

#[test]
fn paste_event_goes_through_the_engine() {
    let mut buf = build(&["axd"], 0, 1);
    let _ = apply_event(&mut buf, &InputEvent::Paste(String::from("b\nc")));
    assert_eq!(lines_of(&buf), vec!["ab".to_string(), "cxd".to_string()]);
}

#[test]
fn split_newlines_matches_string_split() {
    let chunks = split_newlines("a\nbc\n\nd");
    assert_eq!(
        chunks,
        vec![
            "a".to_string(),
            "bc".to_string(),
            "".to_string(),
            "d".to_string()
        ]
    );
    assert_eq!(split_newlines(""), vec!["".to_string()]);
    assert_eq!(
        split_newlines("x\n"),
        vec!["x".to_string(), "".to_string()]
    );
}

#[test]
fn join_lines_joins_with_newline() {
    let lines = vec!["foo".to_string(), "".to_string(), "bar".to_string()];
    assert_eq!(join_lines(&lines).as_str(), "foo\n\nbar");
    let one = vec!["solo".to_string()];
    assert_eq!(join_lines(&one).as_str(), "solo");
    let none: Vec<String> = Vec::new();
    assert_eq!(join_lines(&none).as_str(), "");
}

#[test]
fn contains_newline_finds_embedded_newlines() {
    assert!(contains_newline("a\nb"));
    assert!(!contains_newline("ab"));
    assert!(!contains_newline(""));
}

#[test]
fn caret_split_cuts_at_the_cursor() {
    let (before, after) = caret_split("hello", 2);
    assert_eq!(before, "he");
    assert_eq!(after, "llo");
    let (b2, a2) = caret_split("héllo", 2);
    assert_eq!(b2, "hé");
    assert_eq!(a2, "llo");
}
