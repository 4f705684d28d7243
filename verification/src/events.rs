//! The event loop's decisions: what one key press or one drained
//! asynchronous event does to the application state, and whether a send is
//! started. The surrounding terminal loop performs the I/O and hands the
//! results back as `AppEvent`s.

use crate::state::{apply_edit, AppState, EditOp, ANIMATION_PERIOD};
use crate::width::{is_space, is_space_char};
use vstd::prelude::*;

verus! {

/// An asynchronous happening drained from the loop's channel.
#[derive(Debug)]
pub enum AppEvent {
    Tick,
    GeminiResponse(String),
    GeminiError(String),
}

/// A key press the loop dispatches on. The quit combination is handled by
/// the terminal loop itself and never reaches the state machine.
#[derive(Debug, Clone, Copy)]
pub enum KeyInput {
    Enter,
    Escape,
    Backspace,
    Left,
    Right,
    Char(char),
}

/// Whether the buffer holds anything besides whitespace: the condition under
/// which a send may start.
pub open spec fn input_nonblank(s: Seq<char>) -> bool {
    exists|i: int| 0 <= i < s.len() && !is_space_char(s[i])
}

/// Whether a send starts on Enter: no send may be outstanding and the input
/// must not be blank.
pub open spec fn enter_sends(state: AppState) -> bool {
    !state.is_loading && input_nonblank(state.input@)
}

fn is_blank(text: &str) -> (b: bool)
    ensures
        b == !input_nonblank(text@),
{
    let n = text.unicode_len();
    let mut i: usize = 0;
    while i < n
        invariant
            i <= n,
            n == text@.len(),
            forall|j: int| 0 <= j < i ==> is_space_char(#[trigger] text@[j]),
        decreases n - i,
    {
        if !is_space(text.get_char(i)) {
            return false;
        }
        i = i + 1;
    }
    true
}

/// Apply one key press. Enter with a non-blank input and no outstanding send
/// logs the input as a user message, clears the buffer, raises the loading
/// flag and hands back the text to send; Enter at any other time does
/// nothing. Escape cancels the visible effect of a pending send. The other
/// keys edit the buffer as `apply_edit` says.
pub fn handle_key(state: &mut AppState, key: KeyInput) -> (to_send: Option<String>)
    requires
        old(state).wf(),
        old(state).input@.len() < usize::MAX,
    ensures
        final(state).wf(),
        key is Enter && enter_sends(*old(state)) ==> {
            &&& to_send matches Some(m) && m@ == old(state).input@
            &&& final(state).messages@.len() == old(state).messages@.len() + 1
            &&& final(state).messages@.drop_last() == old(state).messages@
            &&& final(state).messages@.last().content@ == old(state).input@
            &&& final(state).messages@.last().is_user
            &&& final(state).scroll_offset == old(state).messages@.len()
            &&& final(state).input@.len() == 0
            &&& final(state).input_cursor == 0
            &&& final(state).is_loading
            &&& final(state).status_message@ == "Sending message to Gemini..."@
            &&& final(state).animation_frame == old(state).animation_frame
        },
        key is Enter && !enter_sends(*old(state)) ==> *final(state) == *old(state) && to_send
            is None,
        key is Escape ==> to_send is None && {
            &&& final(state).messages == old(state).messages
            &&& final(state).input == old(state).input
            &&& final(state).input_cursor == old(state).input_cursor
            &&& final(state).scroll_offset == old(state).scroll_offset
            &&& !final(state).is_loading
            &&& final(state).animation_frame == old(state).animation_frame
            &&& (old(state).is_loading ==> final(state).status_message@ == "Message cancelled"@)
            &&& (!old(state).is_loading ==> *final(state) == *old(state))
        },
        (key matches KeyInput::Char(c) ==> to_send is None && (
        final(state).input@,
        final(state).input_cursor as int,
        ) == apply_edit(old(state).input@, old(state).input_cursor as int, EditOp::Insert(c))),
        key is Backspace ==> to_send is None && (
        final(state).input@,
        final(state).input_cursor as int,
        ) == apply_edit(old(state).input@, old(state).input_cursor as int, EditOp::Delete),
        key is Left ==> to_send is None && (
        final(state).input@,
        final(state).input_cursor as int,
        ) == apply_edit(old(state).input@, old(state).input_cursor as int, EditOp::Left),
        key is Right ==> to_send is None && (
        final(state).input@,
        final(state).input_cursor as int,
        ) == apply_edit(old(state).input@, old(state).input_cursor as int, EditOp::Right),
        !(key is Enter) ==> final(state).messages == old(state).messages
            && final(state).scroll_offset == old(state).scroll_offset
            && final(state).animation_frame == old(state).animation_frame,
        !(key is Enter) && !(key is Escape) ==> final(state).is_loading == old(state).is_loading
            && final(state).status_message == old(state).status_message,
{
    match key {
        KeyInput::Enter => {
            let blank = is_blank(state.input.as_str());
            if !blank && !state.is_loading {
                let message = state.input.clone();
                let message_out = message.clone();
                state.add_message(message, true);
                state.clear_input();
                state.is_loading = true;
                state.status_message = String::from_str("Sending message to Gemini...");
                Some(message_out)
            } else {
                None
            }
        },
        KeyInput::Escape => {
            if state.is_loading {
                state.is_loading = false;
                state.status_message = String::from_str("Message cancelled");
            }
            None
        },
        KeyInput::Char(c) => {
            state.insert_char(c);
            None
        },
        KeyInput::Backspace => {
            state.delete_char();
            None
        },
        KeyInput::Left => {
            state.move_cursor_left();
            None
        },
        KeyInput::Right => {
            state.move_cursor_right();
            None
        },
    }
}

/// Apply one drained asynchronous event: a reply or an error becomes a
/// remote message and ends the loading state; a tick advances the animation.
pub fn apply_event(state: &mut AppState, event: AppEvent)
    requires
        old(state).wf(),
    ensures
        final(state).wf(),
        event is Tick ==> {
            &&& final(state).animation_frame == (old(state).animation_frame + 1) % (
            ANIMATION_PERIOD as int)
            &&& final(state).messages == old(state).messages
            &&& final(state).input == old(state).input
            &&& final(state).input_cursor == old(state).input_cursor
            &&& final(state).scroll_offset == old(state).scroll_offset
            &&& final(state).is_loading == old(state).is_loading
            &&& final(state).status_message == old(state).status_message
        },
        (event matches AppEvent::GeminiResponse(r) ==> {
            &&& final(state).messages@.len() == old(state).messages@.len() + 1
            &&& final(state).messages@.drop_last() == old(state).messages@
            &&& final(state).messages@.last().content@ == r@
            &&& !final(state).messages@.last().is_user
            &&& final(state).scroll_offset == old(state).messages@.len()
            &&& !final(state).is_loading
            &&& final(state).status_message@ == "Response received! 🎉"@
            &&& final(state).input == old(state).input
            &&& final(state).input_cursor == old(state).input_cursor
            &&& final(state).animation_frame == old(state).animation_frame
        }),
        (event matches AppEvent::GeminiError(e) ==> {
            &&& final(state).messages@.len() == old(state).messages@.len() + 1
            &&& final(state).messages@.drop_last() == old(state).messages@
            &&& final(state).messages@.last().content@ == "❌ Error: "@ + e@
            &&& !final(state).messages@.last().is_user
            &&& final(state).scroll_offset == old(state).messages@.len()
            &&& !final(state).is_loading
            &&& final(state).status_message@ == "Error occurred 😞"@
            &&& final(state).input == old(state).input
            &&& final(state).input_cursor == old(state).input_cursor
            &&& final(state).animation_frame == old(state).animation_frame
        }),
{
    match event {
        AppEvent::Tick => {
            state.increment_animation();
        },
        AppEvent::GeminiResponse(response) => {
            state.add_message(response, false);
            state.is_loading = false;
            state.status_message = String::from_str("Response received! 🎉");
        },
        AppEvent::GeminiError(error) => {
            let mut content = String::from_str("❌ Error: ");
            content.append(error.as_str());
            state.add_message(content, false);
            state.is_loading = false;
            state.status_message = String::from_str("Error occurred 😞");
        },
    }
}

} // verus!
