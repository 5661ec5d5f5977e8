use maelstrom_client::message::{Message, MessageBody, MessageType};
use maelstrom_client::node::{classify, rpc_tick, Dispatch, Maelstrom, NodeMeta, RpcTick};

fn init(id: &str, ids: &[&str]) -> Message {
    Message {
        src: "c1".to_string(),
        dest: id.to_string(),
        body: MessageBody {
            msg_id: Some(1),
            in_reply_to: None,
            msg_type: MessageType::Init {
                node_id: id.to_string(),
                node_ids: ids.iter().map(|s| s.to_string()).collect(),
            },
        },
    }
}

#[test]
fn identity_is_empty_before_handshake() {
    let m = Maelstrom::new();
    assert_eq!(m.node_id(), "");
    assert!(m.node_ids().is_empty());
}

#[test]
fn handshake_sets_identity_once() {
    let mut m = Maelstrom::new();
    let reply = m.handle_init(init("n1", &["n1", "n2"])).unwrap();
    assert_eq!(reply.src, "n1");
    assert_eq!(reply.dest, "c1");
    assert_eq!(reply.body.in_reply_to, Some(1));
    assert_eq!(reply.body.msg_id, Some(0));
    assert_eq!(reply.body.msg_type, MessageType::InitOk);
    assert_eq!(m.node_id(), "n1");
    assert_eq!(m.node_ids(), vec!["n1".to_string(), "n2".to_string()]);
    assert!(m.handle_init(init("n9", &["n9"])).is_none());
    assert_eq!(m.node_id(), "n1");
}

#[test]
fn set_node_meta_second_call_is_refused() {
    let mut m = Maelstrom::new();
    assert!(m.set_node_meta(NodeMeta::new("a".to_string(), vec![])).is_ok());
    let e = m.set_node_meta(NodeMeta::new("b".to_string(), vec![])).unwrap_err();
    assert_eq!(e.node_id, "b");
    assert_eq!(m.node_id(), "a");
}

#[test]
fn request_ids_increase() {
    let mut m = Maelstrom::new();
    assert_eq!(m.next_msg_id(), 0);
    assert_eq!(m.next_msg_id(), 1);
    let s = m.send_with_id("n2".to_string(), MessageBody::with_type(MessageType::Generate));
    assert_eq!(s.body.msg_id, Some(2));
    assert_eq!(s.dest, "n2");
}

#[test]
fn reply_names_request() {
    let mut m = Maelstrom::new();
    m.handle_init(init("n1", &["n1"]));
    let req = Message {
        src: "c2".to_string(),
        dest: "n1".to_string(),
        body: MessageBody { msg_id: Some(42), in_reply_to: None, msg_type: MessageType::Generate },
    };
    let r = m.reply(req.clone(), MessageBody::with_type(MessageType::AddOk));
    assert_eq!(r.dest, "c2");
    assert_eq!(r.src, "n1");
    assert_eq!(r.body.in_reply_to, Some(42));
    assert_eq!(r.body.msg_id, None);
    let r = m.reply_with_id(req, MessageBody::with_type(MessageType::AddOk));
    assert_eq!(r.body.msg_id, Some(1));
    assert_eq!(r.body.in_reply_to, Some(42));
}

#[test]
fn first_reply_wins() {
    let mut m = Maelstrom::new();
    let out = m.start_rpc("lin-kv".to_string(), MessageBody::with_type(MessageType::Generate));
    let id = out.body.msg_id.unwrap();
    assert_eq!(out.dest, "lin-kv");
    assert!(m.process_response(id));
    assert!(!m.process_response(id));
    assert!(!m.process_response(id + 100));
}

#[test]
fn abandoned_rpc_ignores_late_reply() {
    let mut m = Maelstrom::new();
    let out = m.start_rpc("n2".to_string(), MessageBody::with_type(MessageType::Generate));
    let id = out.body.msg_id.unwrap();
    m.abandon_rpc(id);
    assert!(!m.process_response(id));
}

#[test]
fn tick_resends_or_times_out() {
    assert_eq!(rpc_tick(true), RpcTick::Resend);
    assert_eq!(rpc_tick(false), RpcTick::TimedOut);
}

#[test]
fn dispatch_routes_messages() {
    let mut reply = init("n1", &["n1"]);
    reply.body.in_reply_to = Some(5);
    assert_eq!(classify(&reply), Dispatch::Response { in_reply_to: 5 });
    assert_eq!(classify(&init("n1", &["n1"])), Dispatch::Init);
    let other = Message {
        src: "c".to_string(),
        dest: "n1".to_string(),
        body: MessageBody::with_type(MessageType::Generate),
    };
    assert_eq!(classify(&other), Dispatch::Handle);
}
