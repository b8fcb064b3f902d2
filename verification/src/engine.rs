//! The edit engine: maps a discrete input event to one line-buffer
//! operation or to a submit action.
//!
//! The engine never fails: events that ask for nothing sensible (a character
//! event carrying a newline, an arrow past the buffer's edge) fall through as
//! no-ops. The only side effect beyond buffer mutation is the submit command,
//! which carries the joined buffer content; the buffer is reset in the same
//! step, so a caller never observes a half-submitted state.

use vstd::prelude::*;
use vstd::string::*;

use crate::buffer::delete_after_m;
use crate::buffer::delete_before_m;
use crate::buffer::empty_model;
use crate::buffer::insert_text_m;
use crate::buffer::move_down_m;
use crate::buffer::move_end_m;
use crate::buffer::move_home_m;
use crate::buffer::move_left_m;
use crate::buffer::move_right_m;
use crate::buffer::move_up_m;
use crate::buffer::paste_m;
use crate::buffer::split_line_m;
use crate::buffer::BufferModel;
use crate::buffer::LineBuffer;
use crate::text::contains_newline;
use crate::text::joined;
use crate::text::no_newline;

verus! {

/// The modifier keys held during an input event.
#[derive(Clone, Copy, Debug, PartialEq, Eq, Structural)]
pub struct Modifiers {
    pub shift: bool,
    pub ctrl: bool,
    pub meta: bool,
}

/// The control keys the engine reacts to.
#[derive(Clone, Copy, Debug, PartialEq, Eq, Structural)]
pub enum KeyCode {
    Enter,
    Backspace,
    Delete,
    ArrowLeft,
    ArrowRight,
    ArrowUp,
    ArrowDown,
    Home,
    End,
}

/// A discrete input event, in the order the input source delivers them.
#[derive(Clone, Debug)]
pub enum InputEvent {
    /// A printable character (or short text) typed at the keyboard.
    Character(String, Modifiers),
    /// A control key press.
    Key(KeyCode, Modifiers),
    /// A paste payload, which may contain newlines.
    Paste(String),
}

/// What the engine asks its surroundings to do after handling an event:
/// nothing beyond the buffer mutation, or handing a finished message to
/// the message sink.
#[derive(Clone, Debug)]
pub enum EditCommand {
    Nothing,
    Submit(String),
}

/// The ctrl/meta+V paste shortcut as a key event; its insertion is delivered
/// separately as a paste event, so the key event itself must do nothing.
pub open spec fn paste_shortcut(text: Seq<char>, mods: Modifiers) -> bool {
    text == seq!['v'] && (mods.ctrl || mods.meta)
}

/// The buffer state after `evt` is applied to `m`.
pub open spec fn step_m(m: BufferModel, evt: InputEvent) -> BufferModel {
    match evt {
        InputEvent::Character(text, mods) => {
            if paste_shortcut(text@, mods) || !no_newline(text@) {
                m
            } else {
                insert_text_m(m, text@)
            }
        },
        InputEvent::Key(code, mods) => match code {
            KeyCode::Enter => if mods.shift {
                split_line_m(m)
            } else {
                empty_model()
            },
            KeyCode::Backspace => delete_before_m(m),
            KeyCode::Delete => delete_after_m(m),
            KeyCode::ArrowLeft => move_left_m(m),
            KeyCode::ArrowRight => move_right_m(m),
            KeyCode::ArrowUp => move_up_m(m),
            KeyCode::ArrowDown => move_down_m(m),
            KeyCode::Home => move_home_m(m),
            KeyCode::End => move_end_m(m),
        },
        InputEvent::Paste(text) => paste_m(m, text@),
    }
}

/// The message content `evt` submits, if any: Enter without shift submits
/// the buffer's lines joined with `'\n'`.
pub open spec fn submit_payload_m(m: BufferModel, evt: InputEvent) -> Option<Seq<char>> {
    match evt {
        InputEvent::Key(code, mods) => if code is Enter && !mods.shift {
            Some(joined(m.lines))
        } else {
            None
        },
        _ => None,
    }
}

/// True when the surrounding UI must prevent the platform's default action
/// for `evt`: the shift+Enter line split and the ctrl/meta+V paste shortcut.
pub open spec fn suppresses_default_m(evt: InputEvent) -> bool {
    match evt {
        InputEvent::Character(text, mods) => paste_shortcut(text@, mods),
        InputEvent::Key(code, mods) => code is Enter && mods.shift,
        InputEvent::Paste(_) => false,
    }
}

/// True exactly when `text` is the single character `v`.
fn is_letter_v(text: &String) -> (b: bool)
    ensures
        b == (text@ == seq!['v']),
{
    let is_v = text.as_str().unicode_len() == 1 && text.as_str().get_char(0) == 'v';
    proof {
        if is_v {
            assert(text@ =~= seq!['v']);
        }
    }
    is_v
}

/// True when the surrounding UI must prevent the platform's default action
/// for `evt` (see [`suppresses_default_m`]).
pub fn suppresses_default(evt: &InputEvent) -> (b: bool)
    ensures
        b == suppresses_default_m(*evt),
{
    match evt {
        InputEvent::Character(text, mods) => (mods.ctrl || mods.meta) && is_letter_v(text),
        InputEvent::Key(code, mods) => matches!(code, KeyCode::Enter) && mods.shift,
        InputEvent::Paste(_) => false,
    }
}

/// Applies one input event to the buffer.
///
/// The new buffer state is exactly [`step_m`]; the returned command carries
/// a submit payload exactly when [`submit_payload_m`] says one is produced —
/// Enter without shift, whose payload is the lines joined with `'\n'`. In
/// that same step the buffer is reset to the initial empty state, so no
/// caller ever sees a half-submitted buffer.
pub fn apply_event(buf: &mut LineBuffer, evt: &InputEvent) -> (cmd: EditCommand)
    requires
        old(buf)@.wf(),
    ensures
        final(buf)@ == step_m(old(buf)@, *evt),
        final(buf)@.wf(),
        match cmd {
            EditCommand::Submit(content) => submit_payload_m(old(buf)@, *evt) == Some(content@),
            EditCommand::Nothing => submit_payload_m(old(buf)@, *evt) is None,
        },
{
    match evt {
        InputEvent::Character(text, mods) => {
            if (mods.ctrl || mods.meta) && is_letter_v(text) {
                // The paste shortcut: suppressed; the payload arrives as a
                // separate paste event.
            } else if contains_newline(text.as_str()) {
                // A malformed character event; multi-line content must go
                // through a paste event.
            } else {
                buf.insert_text(text.as_str());
            }
            EditCommand::Nothing
        },
        InputEvent::Key(code, mods) => match code {
            KeyCode::Enter => {
                if mods.shift {
                    buf.split_line();
                    EditCommand::Nothing
                } else {
                    let content = buf.joined_content();
                    buf.clear();
                    EditCommand::Submit(content)
                }
            },
            KeyCode::Backspace => {
                buf.delete_char_before();
                EditCommand::Nothing
            },
            KeyCode::Delete => {
                buf.delete_char_after();
                EditCommand::Nothing
            },
            KeyCode::ArrowLeft => {
                buf.move_left();
                EditCommand::Nothing
            },
            KeyCode::ArrowRight => {
                buf.move_right();
                EditCommand::Nothing
            },
            KeyCode::ArrowUp => {
                buf.move_up();
                EditCommand::Nothing
            },
            KeyCode::ArrowDown => {
                buf.move_down();
                EditCommand::Nothing
            },
            KeyCode::Home => {
                buf.move_home();
                EditCommand::Nothing
            },
            KeyCode::End => {
                buf.move_end();
                EditCommand::Nothing
            },
        },
        InputEvent::Paste(text) => {
            buf.paste(text.as_str());
            EditCommand::Nothing
        },
    }
}

} // verus!
