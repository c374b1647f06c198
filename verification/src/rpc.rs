//! MessagePack-RPC messages between the UI and Neovim, over a model of MessagePack values.
use vstd::prelude::*;

verus! {

/// A MessagePack value. Integers are held whole, whether signed or not; floats as their
/// bits; strings that are not UTF-8 are binary; a map is the list of its entries.
#[derive(Debug, PartialEq, Eq)]
pub enum Value {
    Nil,
    Boolean(bool),
    Integer(i128),
    F32(u32),
    F64(u64),
    String(String),
    Binary(Vec<u8>),
    Array(Vec<Value>),
    Entries(Vec<(Value, Value)>),
    Ext(i8, Vec<u8>),
}

/// A call that waits for a response.
#[derive(Debug, PartialEq, Eq)]
pub struct Request {
    pub msgid: u64,
    pub method: String,
    pub params: Vec<Value>,
}

/// The answer to a request.
#[derive(Debug, PartialEq, Eq)]
pub struct Response {
    pub msgid: u64,
    pub error: Value,
    pub result: Value,
}

/// A call that gets no response.
#[derive(Debug, PartialEq, Eq)]
pub struct Notification {
    pub method: String,
    pub params: Vec<Value>,
}

#[derive(Debug, PartialEq, Eq)]
pub enum Message {
    Request(Request),
    Response(Response),
    Notification(Notification),
}

/// The value as a `u64`, where it is an integer in range.
pub open spec fn spec_u64(v: Value) -> Option<u64> {
    match v {
        Value::Integer(n) => if 0 <= n <= u64::MAX {
            Some(n as u64)
        } else {
            None
        },
        _ => None,
    }
}

/// The value as a string, where it is one.
pub open spec fn spec_string(v: Value) -> Option<String> {
    match v {
        Value::String(s) => Some(s),
        _ => None,
    }
}

/// The value as an array, where it is one.
pub open spec fn spec_array(v: Value) -> Option<Vec<Value>> {
    match v {
        Value::Array(a) => Some(a),
        _ => None,
    }
}

/// The message a value holds: an array whose first element is the type (0 request, 1
/// response, 2 notification), followed by the fields of that type in order; elements past
/// those are ignored. `None` where the value is no such array.
pub open spec fn parse_spec(v: Value) -> Option<Message> {
    match v {
        Value::Array(items) => {
            let s = items@;
            if s.len() < 1 || spec_u64(s[0]) is None {
                None
            } else {
                let t = spec_u64(s[0]).unwrap();
                if t == 0 {
                    if s.len() >= 4 && spec_u64(s[1]) is Some && spec_string(s[2]) is Some
                        && spec_array(s[3]) is Some {
                        Some(
                            Message::Request(
                                Request {
                                    msgid: spec_u64(s[1]).unwrap(),
                                    method: spec_string(s[2]).unwrap(),
                                    params: spec_array(s[3]).unwrap(),
                                },
                            ),
                        )
                    } else {
                        None
                    }
                } else if t == 1 {
                    if s.len() >= 4 && spec_u64(s[1]) is Some {
                        Some(
                            Message::Response(
                                Response { msgid: spec_u64(s[1]).unwrap(), error: s[2], result: s[3] },
                            ),
                        )
                    } else {
                        None
                    }
                } else if t == 2 {
                    if s.len() >= 3 && spec_string(s[1]) is Some && spec_array(s[2]) is Some {
                        Some(
                            Message::Notification(
                                Notification {
                                    method: spec_string(s[1]).unwrap(),
                                    params: spec_array(s[2]).unwrap(),
                                },
                            ),
                        )
                    } else {
                        None
                    }
                } else {
                    None
                }
            }
        },
        _ => None,
    }
}

fn take_u64(v: Value) -> (r: Option<u64>)
    ensures
        r == spec_u64(v),
{
    match v {
        Value::Integer(n) => if 0 <= n && n <= 0xffff_ffff_ffff_ffff {
            Some(n as u64)
        } else {
            None
        },
        _ => None,
    }
}

fn take_string(v: Value) -> (r: Option<String>)
    ensures
        r == spec_string(v),
{
    match v {
        Value::String(s) => Some(s),
        _ => None,
    }
}

fn take_array(v: Value) -> (r: Option<Vec<Value>>)
    ensures
        r == spec_array(v),
{
    match v {
        Value::Array(a) => Some(a),
        _ => None,
    }
}

/// Takes the first element out of the array.
fn next_item(items: &mut Vec<Value>) -> (r: Option<Value>)
    ensures
        old(items)@.len() == 0 ==> r is None && final(items)@ == old(items)@,
        old(items)@.len() > 0 ==> r == Some(old(items)@[0]) && final(items)@ == old(
            items,
        )@.drop_first(),
{
    if items.len() == 0 {
        None
    } else {
        Some(items.remove(0))
    }
}

/// The elements of the array a message is sent as: its type and its fields.
pub open spec fn message_items(m: Message) -> Seq<Value> {
    match m {
        Message::Request(q) => seq![
            Value::Integer(0),
            Value::Integer(q.msgid as i128),
            Value::String(q.method),
            Value::Array(q.params),
        ],
        Message::Response(p) => seq![
            Value::Integer(1),
            Value::Integer(p.msgid as i128),
            p.error,
            p.result,
        ],
        Message::Notification(n) => seq![
            Value::Integer(2),
            Value::String(n.method),
            Value::Array(n.params),
        ],
    }
}

/// Reading the value a message is sent as gives the message back.
pub proof fn parse_undoes_into_value(m: Message, v: Value)
    requires
        v matches Value::Array(items) && items@ == message_items(m),
    ensures
        parse_spec(v) == Some(m),
{
}

impl Message {
    /// Reads a message out of a value.
    pub fn parse(value: Value) -> (r: Option<Message>)
        ensures
            r == parse_spec(value),
    {
        let mut items = match value {
            Value::Array(items) => items,
            _ => return None,
        };
        let ghost s = items@;
        let msg_type = match next_item(&mut items) {
            Some(v) => match take_u64(v) {
                Some(t) => t,
                None => return None,
            },
            None => return None,
        };
        if msg_type == 0 {
            let msgid = match next_item(&mut items) {
                Some(v) => take_u64(v),
                None => None,
            };
            let method = match next_item(&mut items) {
                Some(v) => take_string(v),
                None => None,
            };
            let params = match next_item(&mut items) {
                Some(v) => take_array(v),
                None => None,
            };
            match (msgid, method, params) {
                (Some(msgid), Some(method), Some(params)) => Some(
                    Message::Request(Request { msgid, method, params }),
                ),
                _ => None,
            }
        } else if msg_type == 1 {
            let msgid = match next_item(&mut items) {
                Some(v) => take_u64(v),
                None => None,
            };
            let error = next_item(&mut items);
            let result = next_item(&mut items);
            match (msgid, error, result) {
                (Some(msgid), Some(error), Some(result)) => Some(
                    Message::Response(Response { msgid, error, result }),
                ),
                _ => None,
            }
        } else if msg_type == 2 {
            let method = match next_item(&mut items) {
                Some(v) => take_string(v),
                None => None,
            };
            let params = match next_item(&mut items) {
                Some(v) => take_array(v),
                None => None,
            };
            match (method, params) {
                (Some(method), Some(params)) => Some(
                    Message::Notification(Notification { method, params }),
                ),
                _ => None,
            }
        } else {
            None
        }
    }

    /// The value a message is sent as: an array of its type and its fields.
    pub fn into_value(self) -> (r: Value)
        ensures
            r matches Value::Array(items) && items@ == message_items(self),
    {
        let mut items: Vec<Value> = Vec::new();
        match self {
            Message::Request(q) => {
                items.push(Value::Integer(0));
                items.push(Value::Integer(q.msgid as i128));
                items.push(Value::String(q.method));
                items.push(Value::Array(q.params));
            },
            Message::Response(p) => {
                items.push(Value::Integer(1));
                items.push(Value::Integer(p.msgid as i128));
                items.push(p.error);
                items.push(p.result);
            },
            Message::Notification(n) => {
                items.push(Value::Integer(2));
                items.push(Value::String(n.method));
                items.push(Value::Array(n.params));
            },
        }
        Value::Array(items)
    }
}

} // verus!
