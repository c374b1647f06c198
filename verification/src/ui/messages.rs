//! Messages shown by Neovim with `ext_messages`.
use crate::event::{Content, MsgHistoryEntry, MsgShow, ReplaceLast};
use vstd::prelude::*;

verus! {

#[derive(Debug, Clone)]
pub struct Messages {
    pub show: Vec<MsgHistoryEntry>,
    pub history: Vec<MsgHistoryEntry>,
    pub showmode: Content,
    pub showcmd: Content,
    pub ruler: Content,
}

impl Messages {
    /// No messages.
    pub fn new() -> (r: Messages)
        ensures
            r.show@.len() == 0,
            r.history@.len() == 0,
            r.showmode.chunks@.len() == 0,
            r.showcmd.chunks@.len() == 0,
            r.ruler.chunks@.len() == 0,
    {
        Messages {
            show: Vec::new(),
            history: Vec::new(),
            showmode: Content::new(),
            showcmd: Content::new(),
            ruler: Content::new(),
        }
    }

    /// `new` is `old` after showing the message of `event`.
    pub open spec fn shown(old: Messages, new: Messages, event: MsgShow) -> bool {
        &&& new.show@ == (match event.replace_last {
            ReplaceLast::Replace => if old.show@.len() > 0 {
                old.show@.drop_last()
            } else {
                old.show@
            },
            ReplaceLast::Keep => old.show@,
        }).push(MsgHistoryEntry { kind: event.kind, content: event.content })
        &&& new.history == old.history
        &&& new.showmode == old.showmode
        &&& new.showcmd == old.showcmd
        &&& new.ruler == old.ruler
    }

    /// Shows a message, in place of the last one where the event says so.
    pub fn show(&mut self, event: MsgShow)
        ensures
            Messages::shown(*old(self), *final(self), event),
    {
        match event.replace_last {
            ReplaceLast::Replace => {
                self.show.pop();
            },
            ReplaceLast::Keep => {},
        }
        let message = MsgHistoryEntry { kind: event.kind, content: event.content };
        self.show.push(message);
    }
}

} // verus!
