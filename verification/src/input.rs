//! Edit operations: what the host delivers, and what each does to the engine.

use crate::chars::{chars_of, tail_is};
use crate::renderer::{FastTextRenderer, RendererView};
use crate::text_buffer::TextBufferView;
use vstd::prelude::*;
use vstd::string::StringSliceAdditionalSpecFns;
use vstd::utf8::{encode_utf8, valid_utf8};

verus! {

/// One edit of the text or move of the cursor.
#[derive(Debug, PartialEq, Eq)]
pub enum EditEvent {
    /// Type a character at the cursor.
    Insert(char),
    /// Remove the character before the cursor.
    DeleteBeforeCursor,
    /// Move the cursor one character towards the start.
    CursorLeft,
    /// Move the cursor one character towards the end.
    CursorRight,
    /// Replace the whole text.
    SetText(String),
}

/// `code` is a Unicode scalar value: a code point that is no surrogate.
pub open spec fn is_scalar_value(code: u32) -> bool {
    code <= 0xD7FF || 0xE000 <= code <= 0x10FFFF
}

/// Trusted: `char::from_u32` gives the character with the code `i`, and `None`
/// where `i` is no Unicode scalar value, as std documents it.
pub assume_specification[ char::from_u32 ](i: u32) -> (ch: Option<char>)
    ensures
        ch is Some <==> is_scalar_value(i),
        ch matches Some(c) ==> c == i as char,
;

/// Why bytes are no text. Opaque to the verifier.
#[verifier::external_type_specification]
#[verifier::external_body]
pub struct ExUtf8Error(core::str::Utf8Error);

/// Trusted: `core::str::from_utf8` succeeds exactly on bytes that are valid
/// UTF-8, and the text it gives is spelled by those bytes, as std documents it.
pub assume_specification<'a>[ core::str::from_utf8 ](v: &'a [u8]) -> (text: Result<
    &'a str,
    core::str::Utf8Error,
>)
    ensures
        text is Ok <==> valid_utf8(v@),
        text matches Ok(s) ==> s.spec_bytes() == v@,
;

/// The edit that a key stands for, by the name the host gives the key: the
/// arrow keys move the cursor, `Backspace` deletes, `Enter` types a line break
/// and a key whose name is one character types that character. Other keys edit
/// nothing.
pub open spec fn key_edit(key: Seq<char>) -> Option<EditEvent> {
    if key == "ArrowLeft"@ {
        Some(EditEvent::CursorLeft)
    } else if key == "ArrowRight"@ {
        Some(EditEvent::CursorRight)
    } else if key == "Backspace"@ {
        Some(EditEvent::DeleteBeforeCursor)
    } else if key == "Enter"@ {
        Some(EditEvent::Insert('\n'))
    } else if key.len() == 1 {
        Some(EditEvent::Insert(key[0]))
    } else {
        None
    }
}

/// The edit that a key stands for, if it stands for one.
pub fn edit_for_key(key: &str) -> (event: Option<EditEvent>)
    ensures
        event == key_edit(key@),
{
    let chars = chars_of(key);
    assert(chars@.subrange(0, chars@.len() as int) =~= chars@);
    if tail_is(&chars, 0, "ArrowLeft") {
        Some(EditEvent::CursorLeft)
    } else if tail_is(&chars, 0, "ArrowRight") {
        Some(EditEvent::CursorRight)
    } else if tail_is(&chars, 0, "Backspace") {
        Some(EditEvent::DeleteBeforeCursor)
    } else if tail_is(&chars, 0, "Enter") {
        Some(EditEvent::Insert('\n'))
    } else if chars.len() == 1 {
        Some(EditEvent::Insert(chars[0]))
    } else {
        None
    }
}

/// The edit that types the character with the code `char_code`, if there is
/// such a character.
pub fn edit_for_char_code(char_code: u32) -> (event: Option<EditEvent>)
    ensures
        event == if is_scalar_value(char_code) {
            Some(EditEvent::Insert(char_code as char))
        } else {
            None
        },
{
    match char::from_u32(char_code) {
        Some(ch) => Some(EditEvent::Insert(ch)),
        None => None,
    }
}

/// The state in which `event` leaves the engine, before a render is asked for.
/// Edits of the text commit it; moves of the cursor commit nothing.
pub open spec fn edit_result(state: RendererView, event: EditEvent) -> RendererView {
    let cursor = state.text.cursor;
    let chars = state.text.chars;
    match event {
        EditEvent::Insert(ch) => state.edited(
            TextBufferView { chars: chars.insert(cursor, ch), cursor: cursor + 1 },
        ),
        EditEvent::DeleteBeforeCursor => if cursor > 0 {
            state.edited(TextBufferView { chars: chars.remove(cursor - 1), cursor: cursor - 1 })
        } else {
            state
        },
        EditEvent::CursorLeft => RendererView {
            text: TextBufferView {
                chars,
                cursor: if cursor > 0 {
                    cursor - 1
                } else {
                    0
                },
            },
            ..state
        },
        EditEvent::CursorRight => RendererView {
            text: TextBufferView {
                chars,
                cursor: if cursor < chars.len() {
                    cursor + 1
                } else {
                    cursor
                },
            },
            ..state
        },
        EditEvent::SetText(text) => state.edited(
            TextBufferView { chars: text@, cursor: text@.len() as int },
        ),
    }
}

/// Applies one edit and asks for a render. Returns whether the caller has to
/// schedule a render: it has not when one is pending already, so that a burst
/// of edits leads to one render, of the latest text.
pub fn apply_edit(renderer: &mut FastTextRenderer, event: EditEvent) -> (schedule: bool)
    requires
        old(renderer).wf(),
    ensures
        final(renderer).wf(),
        schedule == !old(renderer)@.render_pending,
        final(renderer)@ == (RendererView {
            render_pending: true,
            ..edit_result(old(renderer)@, event)
        }),
{
    match event {
        EditEvent::Insert(ch) => renderer.insert_char(ch),
        EditEvent::DeleteBeforeCursor => renderer.delete_char_before_cursor(),
        EditEvent::CursorLeft => renderer.move_cursor_left(),
        EditEvent::CursorRight => renderer.move_cursor_right(),
        EditEvent::SetText(text) => renderer.set_text(text.as_str()),
    }
    renderer.request_render()
}

/// A key press, by the name the host gives the key: applies the edit that the
/// key stands for, if it stands for one. Returns whether a render has to be
/// scheduled.
pub fn key_down(renderer: &mut FastTextRenderer, key: &str) -> (schedule: bool)
    requires
        old(renderer).wf(),
    ensures
        final(renderer).wf(),
        match key_edit(key@) {
            Some(event) => schedule == !old(renderer)@.render_pending && final(renderer)@ == (
            RendererView { render_pending: true, ..edit_result(old(renderer)@, event) }),
            None => !schedule && final(renderer)@ == old(renderer)@,
        },
{
    match edit_for_key(key) {
        Some(event) => apply_edit(renderer, event),
        None => false,
    }
}

/// A typed code point: types its character at the cursor, if it is one.
/// Returns whether a render has to be scheduled.
pub fn insert_char_at_cursor(renderer: &mut FastTextRenderer, char_code: u32) -> (schedule: bool)
    requires
        old(renderer).wf(),
    ensures
        final(renderer).wf(),
        is_scalar_value(char_code) ==> schedule == !old(renderer)@.render_pending
            && final(renderer)@ == (RendererView {
            render_pending: true,
            ..edit_result(old(renderer)@, EditEvent::Insert(char_code as char))
        }),
        !is_scalar_value(char_code) ==> !schedule && final(renderer)@ == old(renderer)@,
{
    match char::from_u32(char_code) {
        Some(ch) => apply_edit(renderer, EditEvent::Insert(ch)),
        None => false,
    }
}

/// The whole text as bytes, as a text field commits it. Bytes that are valid
/// UTF-8 replace the text; others are ignored. Returns whether a render has to
/// be scheduled.
pub fn commit_input(renderer: &mut FastTextRenderer, bytes: &[u8]) -> (schedule: bool)
    requires
        old(renderer).wf(),
    ensures
        final(renderer).wf(),
        valid_utf8(bytes@) ==> schedule == !old(renderer)@.render_pending && encode_utf8(
            final(renderer)@.text.chars,
        ) == bytes@ && final(renderer)@ == (RendererView {
            render_pending: true,
            ..old(renderer)@.edited(
                TextBufferView {
                    chars: final(renderer)@.text.chars,
                    cursor: final(renderer)@.text.chars.len() as int,
                },
            )
        }),
        !valid_utf8(bytes@) ==> !schedule && final(renderer)@ == old(renderer)@,
{
    match core::str::from_utf8(bytes) {
        Ok(text) => {
            renderer.set_text(text);
            renderer.request_render()
        },
        Err(_) => false,
    }
}

} // verus!
