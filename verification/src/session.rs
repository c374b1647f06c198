//! The requests the UI sends to Neovim, numbered in the order they are made.
use crate::rpc::{Message, Request, Response, Value};
use vstd::prelude::*;

verus! {

/// Numbers the requests to an embedded Neovim.
#[derive(Debug)]
pub struct Neovim {
    msgid: u64,
}

/// The UI extensions asked for when attaching.
pub open spec fn attach_extensions() -> Seq<Seq<char>> {
    seq!["rgb"@, "ext_linegrid"@, "ext_multigrid"@]
}

/// The entry turns the option `name` on.
pub open spec fn turned_on(e: (Value, Value), name: Seq<char>) -> bool {
    &&& match e.0 {
        Value::String(k) => k@ == name,
        _ => false,
    }
    &&& e.1 == Value::Boolean(true)
}

impl Neovim {
    /// The id the next request gets.
    pub closed spec fn next_msgid(&self) -> u64 {
        self.msgid
    }

    /// The id the next request gets.
    pub fn next_id(&self) -> (r: u64)
        ensures
            r == self.next_msgid(),
    {
        self.msgid
    }

    /// Requests numbered from 0.
    pub fn new() -> (r: Neovim)
        ensures
            r.next_msgid() == 0,
    {
        Neovim { msgid: 0 }
    }

    /// A request to call `method` with `args`, with the next id.
    pub fn call(&mut self, method: &str, args: Vec<Value>) -> (r: Request)
        requires
            old(self).next_msgid() < u64::MAX,
        ensures
            r.msgid == old(self).next_msgid(),
            final(self).next_msgid() == old(self).next_msgid() + 1,
            r.method@ == method@,
            r.params == args,
    {
        let msgid = self.msgid;
        self.msgid += 1;
        Request { msgid, method: method.to_owned(), params: args }
    }

    /// Attaches the UI to a grid of 80 by 10 cells, with RGB colors and the line-based and
    /// multi-grid extensions.
    pub fn ui_attach(&mut self) -> (r: Request)
        requires
            old(self).next_msgid() < u64::MAX,
        ensures
            r.msgid == old(self).next_msgid(),
            final(self).next_msgid() == old(self).next_msgid() + 1,
            r.method@ == "nvim_ui_attach"@,
            r.params@.len() == 3,
            r.params@[0] == Value::Integer(80),
            r.params@[1] == Value::Integer(10),
            match r.params@[2] {
                Value::Entries(e) => e@.len() == 3 && forall|i: int|
                    0 <= i < 3 ==> #[trigger] turned_on(e@[i], attach_extensions()[i]),
                _ => false,
            },
    {
        proof {
            reveal_strlit("rgb");
            reveal_strlit("ext_linegrid");
            reveal_strlit("ext_multigrid");
        }
        let mut extensions: Vec<(Value, Value)> = Vec::new();
        extensions.push((Value::String("rgb".to_owned()), Value::Boolean(true)));
        extensions.push((Value::String("ext_linegrid".to_owned()), Value::Boolean(true)));
        extensions.push((Value::String("ext_multigrid".to_owned()), Value::Boolean(true)));
        let mut args: Vec<Value> = Vec::new();
        args.push(Value::Integer(80));
        args.push(Value::Integer(10));
        args.push(Value::Entries(extensions));
        self.call("nvim_ui_attach", args)
    }

    /// Sends keys to Neovim as `nvim_input` does.
    pub fn input(&mut self, input: String) -> (r: Request)
        requires
            old(self).next_msgid() < u64::MAX,
        ensures
            r.msgid == old(self).next_msgid(),
            final(self).next_msgid() == old(self).next_msgid() + 1,
            r.method@ == "nvim_input"@,
            r.params@ == seq![Value::String(input)],
    {
        let mut args: Vec<Value> = Vec::new();
        args.push(Value::String(input));
        self.call("nvim_input", args)
    }

    /// Asks Neovim to resize a grid.
    pub fn ui_try_resize_grid(&mut self, grid: u64, width: u64, height: u64) -> (r: Request)
        requires
            old(self).next_msgid() < u64::MAX,
        ensures
            r.msgid == old(self).next_msgid(),
            final(self).next_msgid() == old(self).next_msgid() + 1,
            r.method@ == "nvim_ui_try_resize_grid"@,
            r.params@ == seq![
                Value::Integer(grid as i128),
                Value::Integer(width as i128),
                Value::Integer(height as i128),
            ],
    {
        let mut args: Vec<Value> = Vec::new();
        args.push(Value::Integer(grid as i128));
        args.push(Value::Integer(width as i128));
        args.push(Value::Integer(height as i128));
        self.call("nvim_ui_try_resize_grid", args)
    }
}

/// Requests made one after another on one counter (a session and its clones share it and
/// take turns at it) get distinct ids: the ids are the counter's successive values from
/// where it stood before the first request.
pub proof fn request_ids_distinct(states: Seq<Neovim>, ids: Seq<u64>)
    requires
        states.len() == ids.len() + 1,
        forall|i: int| 0 <= i < ids.len() ==> #[trigger] ids[i] == states[i].next_msgid(),
        forall|i: int|
            0 < i <= ids.len() ==> #[trigger] states[i].next_msgid() == states[i - 1].next_msgid()
                + 1,
    ensures
        forall|i: int| 0 <= i < ids.len() ==> #[trigger] ids[i] == states[0].next_msgid() + i,
        forall|i: int, j: int| 0 <= i < j < ids.len() ==> ids[i] != ids[j],
    decreases ids.len(),
{
    if ids.len() > 0 {
        let n = ids.len() - 1;
        request_ids_distinct(states.take(n + 1), ids.take(n));
        assert forall|i: int| 0 <= i < ids.len() implies #[trigger] ids[i] == states[0].next_msgid()
            + i by {
            if i < n {
                assert(ids.take(n)[i] == ids[i]);
            } else {
                assert(states.take(n + 1)[0] == states[0]);
                if n > 0 {
                    assert(states[n].next_msgid() == states[n - 1].next_msgid() + 1);
                    assert(ids.take(n)[n - 1] == ids[n - 1]);
                }
            }
        }
    }
}

/// What the UI does with a message from Neovim.
#[derive(Debug)]
pub enum Reaction {
    /// Answer a request, which the UI handles none of
    Respond(Response),
    /// Report that a request failed
    ReportError { msgid: u64, error: Value },
    /// Note the result of a request
    ReportResult { msgid: u64, result: Value },
    /// Hand a notification on
    Notify { method: String, params: Vec<Value> },
}

/// `r` answers request `msgid` with no result and the error "Not handled".
pub open spec fn answers_not_handled(r: Reaction, msgid: u64) -> bool {
    match r {
        Reaction::Respond(p) => {
            &&& p.msgid == msgid
            &&& p.result == Value::Nil
            &&& match p.error {
                Value::String(s) => s@ == "Not handled"@,
                _ => false,
            }
        },
        _ => false,
    }
}

/// What to do with a message from Neovim: answer requests as not handled, report the
/// outcome of responses, and hand notifications on.
pub fn react(msg: Message) -> (r: Reaction)
    ensures
        match msg {
            Message::Request(q) => answers_not_handled(r, q.msgid),
            Message::Response(p) => r == if p.error == Value::Nil {
                Reaction::ReportResult { msgid: p.msgid, result: p.result }
            } else {
                Reaction::ReportError { msgid: p.msgid, error: p.error }
            },
            Message::Notification(n) => r == (Reaction::Notify { method: n.method, params: n.params }),
        },
{
    proof {
        reveal_strlit("Not handled");
    }
    match msg {
        Message::Request(q) => Reaction::Respond(
            Response { msgid: q.msgid, result: Value::Nil, error: Value::String("Not handled".to_owned()) },
        ),
        Message::Response(p) => {
            if matches!(p.error, Value::Nil) {
                Reaction::ReportResult { msgid: p.msgid, result: p.result }
            } else {
                Reaction::ReportError { msgid: p.msgid, error: p.error }
            }
        },
        Message::Notification(n) => Reaction::Notify { method: n.method, params: n.params },
    }
}

} // verus!
