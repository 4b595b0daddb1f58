//! The chat overlay's state: the shown messages, the player's own messages awaiting the
//! server's echo, and the line being typed.
use std::collections::VecDeque;

use vstd::prelude::*;

verus! {

/// The number of chat messages kept for display.
pub const MAX_MESSAGES: usize = 256;

/// The last `n` elements of `s` (all of them when there are fewer).
pub open spec fn keep_last<A>(s: Seq<A>, n: nat) -> Seq<A> {
    if s.len() > n {
        s.subrange(s.len() - n, s.len() as int)
    } else {
        s
    }
}

/// `s` without its first element, when it has one.
pub open spec fn without_first<A>(s: Seq<A>) -> Seq<A> {
    if s.len() > 0 {
        s.drop_first()
    } else {
        s
    }
}

/// The state of the chat overlay.
pub struct ChatState {
    messages: VecDeque<String>,
    predicted_messages: VecDeque<String>,
    entry_string: String,
    text_was_focused: bool,
    request_edit_focus: bool,
}

impl ChatState {
    /// The shown messages, oldest first.
    pub closed spec fn shown(self) -> Seq<String> {
        self.messages@
    }

    /// The player's own messages awaiting the server's echo, oldest first.
    pub closed spec fn predicted(self) -> Seq<String> {
        self.predicted_messages@
    }

    /// The line being typed.
    pub closed spec fn entry(self) -> Seq<char> {
        self.entry_string@
    }

    /// Whether the typing line had the keyboard focus.
    pub closed spec fn was_focused(self) -> bool {
        self.text_was_focused
    }

    /// Whether the typing line is to take the keyboard focus.
    pub closed spec fn focus_requested(self) -> bool {
        self.request_edit_focus
    }

    /// An empty chat.
    pub fn new() -> (r: ChatState)
        ensures
            r.shown() == Seq::<String>::empty(),
            r.predicted() == Seq::<String>::empty(),
            r.entry() == Seq::<char>::empty(),
            !r.was_focused(),
            !r.focus_requested(),
    {
        ChatState {
            messages: VecDeque::new(),
            predicted_messages: VecDeque::new(),
            entry_string: String::new(),
            text_was_focused: false,
            request_edit_focus: false,
        }
    }

    /// The shown messages, oldest first.
    pub fn messages(&self) -> (r: &VecDeque<String>)
        ensures
            r@ == self.shown(),
    {
        &self.messages
    }

    /// The player's own messages awaiting the server's echo, oldest first.
    pub fn predicted_messages(&self) -> (r: &VecDeque<String>)
        ensures
            r@ == self.predicted(),
    {
        &self.predicted_messages
    }

    /// The line being typed.
    pub fn entry_string(&self) -> (r: &String)
        ensures
            r@ == self.entry(),
    {
        &self.entry_string
    }

    /// Replaces the line being typed with what the text field now holds.
    pub fn set_entry(&mut self, text: String)
        ensures
            final(self).entry() == text@,
            final(self).shown() == old(self).shown(),
            final(self).predicted() == old(self).predicted(),
            final(self).was_focused() == old(self).was_focused(),
            final(self).focus_requested() == old(self).focus_requested(),
    {
        self.entry_string = text;
    }

    /// Shows a chat message; an echo of the player's own message replaces the oldest predicted
    /// one. Only the last [`MAX_MESSAGES`] messages are kept.
    pub fn on_chat_message(&mut self, message: String, is_echo: bool)
        ensures
            final(self).shown() == keep_last(old(self).shown().push(message), MAX_MESSAGES as nat),
            final(self).predicted() == if is_echo {
                without_first(old(self).predicted())
            } else {
                old(self).predicted()
            },
            final(self).entry() == old(self).entry(),
            final(self).was_focused() == old(self).was_focused(),
            final(self).focus_requested() == old(self).focus_requested(),
    {
        if is_echo {
            let _ = self.predicted_messages.pop_front();
        }
        let ghost all = self.messages@.push(message);
        let ghost predicted = self.predicted_messages@;
        let ghost entry = self.entry_string@;
        self.messages.push_back(message);
        while self.messages.len() > MAX_MESSAGES
            invariant
                all.len() >= self.messages@.len(),
                self.messages@.len() >= MAX_MESSAGES || self.messages@.len() == all.len(),
                self.messages@ == all.subrange(all.len() - self.messages@.len(), all.len() as int),
                self.predicted_messages@ == predicted,
                self.entry_string@ == entry,
                self.text_was_focused == old(self).text_was_focused,
                self.request_edit_focus == old(self).request_edit_focus,
            decreases self.messages@.len(),
        {
            let _ = self.messages.pop_front();
        }
        proof {
            assert(self.messages@ =~= keep_last(all, MAX_MESSAGES as nat));
        }
    }

    /// Asks for the typing line to take the keyboard focus (the chat key was released).
    pub fn open_chat(&mut self)
        ensures
            final(self).focus_requested(),
            final(self).shown() == old(self).shown(),
            final(self).predicted() == old(self).predicted(),
            final(self).entry() == old(self).entry(),
            final(self).was_focused() == old(self).was_focused(),
    {
        self.request_edit_focus = true;
    }

    /// Takes a pending focus request: the typing line gets the focus and the cursor must be
    /// released. Returns whether there was one.
    pub fn take_focus_request(&mut self) -> (r: bool)
        ensures
            r == old(self).focus_requested(),
            !final(self).focus_requested(),
            final(self).was_focused() == (old(self).was_focused() || r),
            final(self).shown() == old(self).shown(),
            final(self).predicted() == old(self).predicted(),
            final(self).entry() == old(self).entry(),
    {
        if self.request_edit_focus {
            self.request_edit_focus = false;
            self.text_was_focused = true;
            true
        } else {
            false
        }
    }

    /// Takes in the typing line's focus after a frame: when it lost the focus with Enter pressed,
    /// the typed line is returned to be sent and shown as predicted (prefixed with `<...> `);
    /// whenever it lost the focus, the line is cleared.
    pub fn after_edit(&mut self, has_focus: bool, lost_focus: bool, enter_pressed: bool) -> (r: Option<String>)
        ensures
            final(self).was_focused() == has_focus,
            final(self).focus_requested() == old(self).focus_requested(),
            final(self).shown() == old(self).shown(),
            lost_focus && enter_pressed ==> (r matches Some(sent) && sent@ == old(self).entry()
                && final(self).predicted().len() == old(self).predicted().len() + 1
                && final(self).predicted().drop_last() == old(self).predicted()
                && final(self).predicted().last()@ == "<...> "@ + old(self).entry()),
            !(lost_focus && enter_pressed) ==> r is None && final(self).predicted() == old(self).predicted(),
            final(self).entry() == if lost_focus {
                Seq::<char>::empty()
            } else {
                old(self).entry()
            },
    {
        self.text_was_focused = has_focus;
        let mut sent: Option<String> = None;
        if lost_focus && enter_pressed {
            let mut predicted = String::from_str("<...> ");
            predicted.append(self.entry_string.as_str());
            let ghost p0 = self.predicted_messages@;
            self.predicted_messages.push_back(predicted);
            proof {
                assert(self.predicted_messages@.drop_last() =~= p0);
            }
            sent = Some(self.entry_string.clone());
        }
        if lost_focus {
            self.entry_string = String::new();
        }
        sent
    }
}

} // verus!
