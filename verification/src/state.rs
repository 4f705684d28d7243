//! The single mutable model of the application: the message log, the input
//! buffer with its cursor, the loading flag, the status line and the
//! animation counter, together with the bounded edits the event loop applies.

use crate::clock::now_unix_secs;
use crate::width::char_to_string;
use vstd::prelude::*;

verus! {

/// Frames in one animation cycle: the counter always stays below this.
pub const ANIMATION_PERIOD: usize = 100;

/// One entry of the conversation log, immutable once created.
#[derive(Debug, Clone)]
pub struct ChatMessage {
    pub content: String,
    pub is_user: bool,
    /// Seconds since the Unix epoch when the message was created, or nothing
    /// when the clock could not be read.
    pub timestamp_secs: Option<u64>,
}

/// The whole mutable application state.
#[derive(Debug, Clone)]
pub struct AppState {
    pub messages: Vec<ChatMessage>,
    pub input: String,
    pub input_cursor: usize,
    pub scroll_offset: usize,
    pub is_loading: bool,
    pub status_message: String,
    pub animation_frame: usize,
}

/// A single edit of the input buffer.
#[derive(Debug, Clone, Copy)]
pub enum EditOp {
    Insert(char),
    Delete,
    Left,
    Right,
    Clear,
}

/// Buffer and cursor after one edit: insertion at the cursor moves it right,
/// backspace removes the character before it (a no-op at the start), moves
/// clamp to the ends, clearing resets both.
pub open spec fn apply_edit(input: Seq<char>, cursor: int, op: EditOp) -> (Seq<char>, int) {
    match op {
        EditOp::Insert(c) => (input.insert(cursor, c), cursor + 1),
        EditOp::Delete => if cursor > 0 {
            (input.remove(cursor - 1), cursor - 1)
        } else {
            (input, cursor)
        },
        EditOp::Left => (input, if cursor > 0 {
            cursor - 1
        } else {
            0
        }),
        EditOp::Right => (input, if cursor < input.len() {
            cursor + 1
        } else {
            cursor
        }),
        EditOp::Clear => (Seq::empty(), 0),
    }
}

/// Buffer and cursor after a whole sequence of edits.
pub open spec fn apply_edits(input: Seq<char>, cursor: int, ops: Seq<EditOp>) -> (Seq<char>, int)
    decreases ops.len(),
{
    if ops.len() == 0 {
        (input, cursor)
    } else {
        let next = apply_edit(input, cursor, ops[0]);
        apply_edits(next.0, next.1, ops.drop_first())
    }
}

/// However many edits are applied, the cursor never leaves the buffer: it
/// stays between zero and the buffer's length.
pub proof fn lemma_cursor_always_bounded(input: Seq<char>, cursor: int, ops: Seq<EditOp>)
    requires
        0 <= cursor <= input.len(),
    ensures
        0 <= apply_edits(input, cursor, ops).1 <= apply_edits(input, cursor, ops).0.len(),
    decreases ops.len(),
{
    if ops.len() > 0 {
        let next = apply_edit(input, cursor, ops[0]);
        lemma_cursor_always_bounded(next.0, next.1, ops.drop_first());
    }
}

/// Inserting a character and then deleting restores the original buffer and
/// cursor: after the insertion the cursor stands just past the new
/// character, and backspace removes exactly it.
pub proof fn lemma_insert_delete_roundtrip(input: Seq<char>, cursor: int, c: char)
    requires
        0 <= cursor <= input.len(),
    ensures
        apply_edits(input, cursor, seq![EditOp::Insert(c), EditOp::Delete]) == (input, cursor),
{
    let ops = seq![EditOp::Insert(c), EditOp::Delete];
    assert(ops[0] == EditOp::Insert(c));
    let next = apply_edit(input, cursor, ops[0]);
    assert(next == (input.insert(cursor, c), cursor + 1));
    assert(ops.drop_first() =~= seq![EditOp::Delete]);
    assert(apply_edits(input, cursor, ops) == apply_edits(
        input.insert(cursor, c),
        cursor + 1,
        seq![EditOp::Delete],
    ));
    let next2 = apply_edit(input.insert(cursor, c), cursor + 1, EditOp::Delete);
    assert(next2 == (input.insert(cursor, c).remove(cursor), cursor));
    assert(seq![EditOp::Delete].drop_first() =~= Seq::<EditOp>::empty());
    assert(apply_edits(input.insert(cursor, c), cursor + 1, seq![EditOp::Delete]) == apply_edits(
        input.insert(cursor, c).remove(cursor),
        cursor,
        Seq::<EditOp>::empty(),
    ));
    assert(input.insert(cursor, c).remove(cursor) =~= input);
}

impl AppState {
    /// Internal consistency: the cursor lies inside the input, the scroll
    /// offset names an existing message or the log is empty, and the
    /// animation counter stays below its period.
    pub open spec fn wf(&self) -> bool {
        &&& self.input_cursor <= self.input@.len()
        &&& (self.messages@.len() == 0 ==> self.scroll_offset == 0)
        &&& (self.messages@.len() > 0 ==> self.scroll_offset < self.messages@.len())
        &&& self.animation_frame < ANIMATION_PERIOD
    }

    /// Append a message to the log, stamped with the current clock reading,
    /// and scroll to it: the scroll offset becomes the new entry's index.
    pub fn add_message(&mut self, content: String, is_user: bool)
        requires
            old(self).wf(),
        ensures
            final(self).wf(),
            final(self).messages@.len() == old(self).messages@.len() + 1,
            final(self).messages@.drop_last() == old(self).messages@,
            final(self).messages@.last().content@ == content@,
            final(self).messages@.last().is_user == is_user,
            final(self).scroll_offset == old(self).messages@.len(),
            final(self).input == old(self).input,
            final(self).input_cursor == old(self).input_cursor,
            final(self).is_loading == old(self).is_loading,
            final(self).status_message == old(self).status_message,
            final(self).animation_frame == old(self).animation_frame,
    {
        let timestamp_secs = now_unix_secs();
        self.messages.push(ChatMessage { content, is_user, timestamp_secs });
        self.scroll_offset = self.messages.len() - 1;
        proof {
            assert(self.messages@.drop_last() =~= old(self).messages@);
        }
    }

    /// Insert a character at the cursor and step the cursor past it.
    pub fn insert_char(&mut self, c: char)
        requires
            old(self).wf(),
            old(self).input@.len() < usize::MAX,
        ensures
            final(self).wf(),
            final(self).input@ == old(self).input@.insert(old(self).input_cursor as int, c),
            final(self).input_cursor == old(self).input_cursor + 1,
            (final(self).input@, final(self).input_cursor as int) == apply_edit(
                old(self).input@,
                old(self).input_cursor as int,
                EditOp::Insert(c),
            ),
            final(self).messages == old(self).messages,
            final(self).scroll_offset == old(self).scroll_offset,
            final(self).is_loading == old(self).is_loading,
            final(self).status_message == old(self).status_message,
            final(self).animation_frame == old(self).animation_frame,
    {
        let cs = char_to_string(c);
        let n = self.input.as_str().unicode_len();
        let mut s = String::from_str(self.input.as_str().substring_char(0, self.input_cursor));
        s.append(cs.as_str());
        s.append(self.input.as_str().substring_char(self.input_cursor, n));
        self.input = s;
        self.input_cursor = self.input_cursor + 1;
        proof {
            assert(self.input@ =~= old(self).input@.insert(old(self).input_cursor as int, c));
        }
    }

    /// Remove the character just before the cursor and step the cursor back;
    /// at the start of the buffer nothing changes.
    pub fn delete_char(&mut self)
        requires
            old(self).wf(),
        ensures
            final(self).wf(),
            old(self).input_cursor == 0 ==> *final(self) == *old(self),
            old(self).input_cursor > 0 ==> final(self).input@ == old(self).input@.remove(
                old(self).input_cursor - 1,
            ) && final(self).input_cursor == old(self).input_cursor - 1,
            (final(self).input@, final(self).input_cursor as int) == apply_edit(
                old(self).input@,
                old(self).input_cursor as int,
                EditOp::Delete,
            ),
            final(self).messages == old(self).messages,
            final(self).scroll_offset == old(self).scroll_offset,
            final(self).is_loading == old(self).is_loading,
            final(self).status_message == old(self).status_message,
            final(self).animation_frame == old(self).animation_frame,
    {
        if self.input_cursor > 0 {
            let n = self.input.as_str().unicode_len();
            let mut s = String::from_str(
                self.input.as_str().substring_char(0, self.input_cursor - 1),
            );
            s.append(self.input.as_str().substring_char(self.input_cursor, n));
            self.input = s;
            self.input_cursor = self.input_cursor - 1;
            proof {
                assert(self.input@ =~= old(self).input@.remove(old(self).input_cursor - 1));
            }
        }
    }

    /// Move the cursor one place left, stopping at the start.
    pub fn move_cursor_left(&mut self)
        requires
            old(self).wf(),
        ensures
            final(self).wf(),
            final(self).input_cursor == if old(self).input_cursor > 0 {
                old(self).input_cursor - 1
            } else {
                0int
            },
            (final(self).input@, final(self).input_cursor as int) == apply_edit(
                old(self).input@,
                old(self).input_cursor as int,
                EditOp::Left,
            ),
            final(self).input == old(self).input,
            final(self).messages == old(self).messages,
            final(self).scroll_offset == old(self).scroll_offset,
            final(self).is_loading == old(self).is_loading,
            final(self).status_message == old(self).status_message,
            final(self).animation_frame == old(self).animation_frame,
    {
        if self.input_cursor > 0 {
            self.input_cursor = self.input_cursor - 1;
        }
    }

    /// Move the cursor one place right, stopping at the end of the buffer.
    pub fn move_cursor_right(&mut self)
        requires
            old(self).wf(),
        ensures
            final(self).wf(),
            final(self).input_cursor == if old(self).input_cursor < old(self).input@.len() {
                old(self).input_cursor + 1
            } else {
                old(self).input_cursor as int
            },
            (final(self).input@, final(self).input_cursor as int) == apply_edit(
                old(self).input@,
                old(self).input_cursor as int,
                EditOp::Right,
            ),
            final(self).input == old(self).input,
            final(self).messages == old(self).messages,
            final(self).scroll_offset == old(self).scroll_offset,
            final(self).is_loading == old(self).is_loading,
            final(self).status_message == old(self).status_message,
            final(self).animation_frame == old(self).animation_frame,
    {
        let n = self.input.as_str().unicode_len();
        if self.input_cursor < n {
            self.input_cursor = self.input_cursor + 1;
        }
    }

    /// Empty the input buffer and put the cursor at its start.
    pub fn clear_input(&mut self)
        requires
            old(self).wf(),
        ensures
            final(self).wf(),
            final(self).input@.len() == 0,
            final(self).input_cursor == 0,
            (final(self).input@, final(self).input_cursor as int) == apply_edit(
                old(self).input@,
                old(self).input_cursor as int,
                EditOp::Clear,
            ),
            final(self).messages == old(self).messages,
            final(self).scroll_offset == old(self).scroll_offset,
            final(self).is_loading == old(self).is_loading,
            final(self).status_message == old(self).status_message,
            final(self).animation_frame == old(self).animation_frame,
    {
        self.input = String::new();
        self.input_cursor = 0;
        proof {
            assert(self.input@ =~= Seq::<char>::empty());
        }
    }

    /// Advance the animation counter by one frame, wrapping at the period.
    pub fn increment_animation(&mut self)
        requires
            old(self).wf(),
        ensures
            final(self).wf(),
            final(self).animation_frame == (old(self).animation_frame + 1) % (
            ANIMATION_PERIOD as int),
            final(self).input == old(self).input,
            final(self).input_cursor == old(self).input_cursor,
            final(self).messages == old(self).messages,
            final(self).scroll_offset == old(self).scroll_offset,
            final(self).is_loading == old(self).is_loading,
            final(self).status_message == old(self).status_message,
    {
        self.animation_frame = (self.animation_frame + 1) % ANIMATION_PERIOD;
    }
}

impl Default for AppState {
    /// The state at startup: empty log, empty input, not loading, a ready
    /// status, animation at frame zero.
    fn default() -> (s: Self)
        ensures
            s.wf(),
            s.messages@.len() == 0,
            s.input@.len() == 0,
            s.input_cursor == 0,
            s.scroll_offset == 0,
            !s.is_loading,
            s.status_message@ == "Ready to chat with Gemini! 🚀"@,
            s.animation_frame == 0,
    {
        AppState {
            messages: Vec::new(),
            input: String::new(),
            input_cursor: 0,
            scroll_offset: 0,
            is_loading: false,
            status_message: String::from_str("Ready to chat with Gemini! 🚀"),
            animation_frame: 0,
        }
    }
}

} // verus!
