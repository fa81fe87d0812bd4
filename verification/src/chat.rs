//! Composer state of the chat view, and what an Enter press hands to the
//! send queue.
use vstd::prelude::*;
use std::collections::HashSet;
use crate::rest::{is_text_message_body, text_message_body};
use crate::sender::SendRequest;
use crate::snowflake::Snowflake;
use crate::text::{chars_of, dec, dec_string, push_dec, push_str, string_of, trim, trim_chars};

verus! {

pub struct ChatState {
    pub input: String,
    pub reply_to: Option<Snowflake>,
    /// Indices of the spoilers the user revealed in the open channel.
    pub spoilers_revealed: HashSet<usize>,
    pub auto_scroll: bool,
    /// Focus the composer as soon as a channel is selected.
    pub want_composer_focus: bool,
    /// Message the emoji picker is currently open for.
    pub reaction_picker_for: Option<Snowflake>,
    /// Live filter text of the emoji picker.
    pub reaction_search: String,
    /// When the emoji picker was opened (ms); outside clicks are ignored
    /// for a short grace window so the opening click cannot close it.
    pub reaction_picker_opened: Option<u64>,
    /// Last send error, shown above the composer until the user types.
    pub send_error: Option<String>,
}

impl Default for ChatState {
    fn default() -> (c: Self)
        ensures
            c.input@.len() == 0,
            c.reply_to is None,
            c.spoilers_revealed@ == Set::<usize>::empty(),
            c.auto_scroll,
            c.want_composer_focus,
            c.reaction_picker_for is None,
            c.reaction_search@.len() == 0,
            c.reaction_picker_opened is None,
            c.send_error is None,
    {
        ChatState {
            input: String::new(),
            reply_to: None,
            spoilers_revealed: HashSet::new(),
            auto_scroll: true,
            want_composer_focus: true,
            reaction_picker_for: None,
            reaction_search: String::new(),
            reaction_picker_opened: None,
            send_error: None,
        }
    }
}

/// The composer fields other than the draft, the reply target and the
/// send error are left as they were.
pub open spec fn same_view_state(a: ChatState, b: ChatState) -> bool {
    &&& a.spoilers_revealed == b.spoilers_revealed
    &&& a.auto_scroll == b.auto_scroll
    &&& a.want_composer_focus == b.want_composer_focus
    &&& a.reaction_picker_for == b.reaction_picker_for
    &&& a.reaction_search == b.reaction_search
    &&& a.reaction_picker_opened == b.reaction_picker_opened
}

impl ChatState {
    /// One Enter press: with a channel open and a draft that is not blank,
    /// takes the trimmed draft and the reply target, clears the draft and
    /// the send error, and returns the one request for the send queue,
    /// tagged with `nonce`. Otherwise nothing is sent and nothing changes.
    pub fn compose_send(&mut self, channel_id: Option<Snowflake>, nonce: Snowflake) -> (r: Option<SendRequest>)
        ensures
            (channel_id is None || trim(old(self).input@).len() == 0) ==> r is None && *final(self) == *old(self),
            (channel_id is Some && trim(old(self).input@).len() > 0) ==> ({
                let cid = channel_id->0;
                &&& r matches Some(req)
                &&& req.0 == cid
                &&& req.2@ == dec(nonce.0 as nat)
                &&& is_text_message_body(req.1, cid, trim(old(self).input@), dec(nonce.0 as nat), old(self).reply_to)
                &&& final(self).input@.len() == 0
                &&& final(self).reply_to is None
                &&& final(self).send_error is None
                &&& same_view_state(*final(self), *old(self))
            }),
            // One press, one send: after a send the draft is blank, so the
            // next press sends nothing until the user types again.
            r is Some ==> trim(final(self).input@).len() == 0,
    {
        let cid = match channel_id {
            Some(c) => c,
            None => return None,
        };
        let chars = chars_of(self.input.as_str());
        let trimmed = trim_chars(chars.as_slice());
        if trimmed.len() == 0 {
            return None;
        }
        let content = string_of(trimmed.as_slice());
        let reply_to = self.reply_to;
        self.reply_to = None;
        let nonce_str = dec_string(nonce.0);
        let body = text_message_body(cid, content, dec_string(nonce.0), reply_to);
        self.input = String::new();
        self.send_error = None;
        Some((cid, body, nonce_str))
    }
}

/// The line under the composer while others type: one name, two names,
/// or the first name and how many others; nothing when nobody types.
pub open spec fn typing_label_spec(names: Seq<Seq<char>>) -> Option<Seq<char>> {
    if names.len() == 0 {
        None
    } else if names.len() == 1 {
        Some(names[0] + " is typing..."@)
    } else if names.len() == 2 {
        Some(names[0] + " and "@ + names[1] + " are typing..."@)
    } else {
        Some(names[0] + " and "@ + dec((names.len() - 1) as nat) + " others are typing..."@)
    }
}

pub fn typing_label(names: &[String]) -> (r: Option<String>)
    ensures
        r is None <==> typing_label_spec(names@.map_values(|n: String| n@)) is None,
        r matches Some(l) ==> typing_label_spec(names@.map_values(|n: String| n@)) == Some(l@),
{
    let ghost v = names@.map_values(|n: String| n@);
    if names.len() == 0 {
        return None;
    }
    let mut s = String::new();
    push_str(&mut s, names[0].as_str());
    assert(v[0] == names@[0]@);
    if names.len() == 1 {
        push_str(&mut s, " is typing...");
    } else if names.len() == 2 {
        push_str(&mut s, " and ");
        push_str(&mut s, names[1].as_str());
        assert(v[1] == names@[1]@);
        push_str(&mut s, " are typing...");
    } else {
        push_str(&mut s, " and ");
        push_dec(&mut s, (names.len() - 1) as u64);
        push_str(&mut s, " others are typing...");
    }
    Some(s)
}

} // verus!
