use neophyte::rpc::{Message, Notification, Request, Response, Value};
use neophyte::session::{react, Neovim, Reaction};

fn num(n: i128) -> Value {
    Value::Integer(n)
}

fn s(t: &str) -> Value {
    Value::String(t.to_string())
}

#[test]
fn parses_each_kind_of_message() {
    let req = Message::parse(Value::Array(vec![num(0), num(7), s("m"), Value::Array(vec![num(1)])]));
    assert_eq!(
        req,
        Some(Message::Request(Request {
            msgid: 7,
            method: "m".to_string(),
            params: vec![num(1)]
        }))
    );
    let resp = Message::parse(Value::Array(vec![num(1), num(7), Value::Nil, s("ok")]));
    assert_eq!(
        resp,
        Some(Message::Response(Response {
            msgid: 7,
            error: Value::Nil,
            result: s("ok")
        }))
    );
    let note = Message::parse(Value::Array(vec![num(2), s("redraw"), Value::Array(vec![]), num(9)]));
    assert_eq!(
        note,
        Some(Message::Notification(Notification {
            method: "redraw".to_string(),
            params: vec![]
        }))
    );
}

#[test]
fn rejects_what_is_no_message() {
    assert_eq!(Message::parse(Value::Nil), None);
    assert_eq!(Message::parse(Value::Array(vec![])), None);
    assert_eq!(Message::parse(Value::Array(vec![num(3), s("x"), Value::Array(vec![])])), None);
    assert_eq!(Message::parse(Value::Array(vec![num(-1)])), None);
    assert_eq!(Message::parse(Value::Array(vec![num(2), num(5), Value::Array(vec![])])), None);
    assert_eq!(Message::parse(Value::Array(vec![num(0), num(1), s("m")])), None);
    assert_eq!(Message::parse(Value::Array(vec![num(1), num(-3), Value::Nil, Value::Nil])), None);
}

#[test]
fn into_value_then_parse_round_trips() {
    let m = Message::Request(Request {
        msgid: u64::MAX,
        method: "nvim_input".to_string(),
        params: vec![s("<Esc>")],
    });
    let v = Message::Request(Request {
        msgid: u64::MAX,
        method: "nvim_input".to_string(),
        params: vec![s("<Esc>")],
    })
    .into_value();
    assert_eq!(
        v,
        Value::Array(vec![num(0), num(u64::MAX as i128), s("nvim_input"), Value::Array(vec![s("<Esc>")])])
    );
    assert_eq!(Message::parse(v), Some(m));
}

#[test]
fn requests_are_numbered_in_order() {
    let mut nvim = Neovim::new();
    let a = nvim.ui_attach();
    assert_eq!(a.msgid, 0);
    assert_eq!(a.method, "nvim_ui_attach");
    assert_eq!(a.params[0], num(80));
    assert_eq!(a.params[1], num(10));
    assert_eq!(
        a.params[2],
        Value::Entries(vec![
            (s("rgb"), Value::Boolean(true)),
            (s("ext_linegrid"), Value::Boolean(true)),
            (s("ext_multigrid"), Value::Boolean(true)),
        ])
    );
    let b = nvim.input("ix".to_string());
    assert_eq!(b.msgid, 1);
    assert_eq!(b.method, "nvim_input");
    assert_eq!(b.params, vec![s("ix")]);
    let c = nvim.ui_try_resize_grid(2, 80, 24);
    assert_eq!(c.msgid, 2);
    assert_eq!(c.method, "nvim_ui_try_resize_grid");
    assert_eq!(c.params, vec![num(2), num(80), num(24)]);
    let d = nvim.call("nvim_command", vec![s("q")]);
    assert_eq!(d.msgid, 3);
}

#[test]
fn reactions_to_messages() {
    match react(Message::Request(Request {
        msgid: 4,
        method: "x".to_string(),
        params: vec![],
    })) {
        Reaction::Respond(r) => {
            assert_eq!(r.msgid, 4);
            assert_eq!(r.result, Value::Nil);
            assert_eq!(r.error, s("Not handled"));
        }
        other => panic!("{other:?}"),
    }
    assert!(matches!(
        react(Message::Response(Response {
            msgid: 1,
            error: s("e"),
            result: Value::Nil
        })),
        Reaction::ReportError { msgid: 1, .. }
    ));
    assert!(matches!(
        react(Message::Response(Response {
            msgid: 1,
            error: Value::Nil,
            result: num(3)
        })),
        Reaction::ReportResult { msgid: 1, .. }
    ));
    assert!(matches!(
        react(Message::Notification(Notification {
            method: "redraw".to_string(),
            params: vec![]
        })),
        Reaction::Notify { .. }
    ));
}
