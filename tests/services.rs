use maelstrom_client::message::MessageType;
use maelstrom_client::services::{echo_reply, IdGenerator};

#[test]
fn echo_returns_same_text() {
    assert_eq!(
        echo_reply(MessageType::Echo { echo: "hi".to_string() }),
        Some(MessageType::EchoOk { echo: "hi".to_string() })
    );
    assert_eq!(echo_reply(MessageType::Generate), None);
}

#[test]
fn ids_carry_node_and_counter() {
    let mut g = IdGenerator::new();
    assert_eq!(g.generate("n1"), "n1-0");
    assert_eq!(g.generate("n1"), "n1-1");
    for _ in 0..8 {
        g.generate("n1");
    }
    assert_eq!(g.generate("n2"), "n2-10");
}
