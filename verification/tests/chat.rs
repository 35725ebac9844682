use workbench::chat::api;
use workbench::chat::channels::Channel;
use workbench::chat::messages::{Message, User};
use workbench::chat::payload::{paragraph, LeaveInfo, MessageInfo, Payload, PayloadInner, PayloadMeta, UserInfo};
use workbench::chat::state::{AppState, SendError};
use workbench::chat::timestamp::Timestamp;
use std::cmp::Ordering;

#[test]
fn add_user_refuses_a_taken_name() {
    let mut state = AppState::new();
    assert!(state.username_is_unique("ann"));
    let ann = state.add_user("ann").expect("first time the name is free");
    assert_eq!(ann, User { username: "ann".to_string() });
    assert!(!state.username_is_unique("ann"));
    assert_eq!(state.add_user("ann"), None);
    assert!(state.username_is_unique("bob"));
    assert!(state.add_user("bob").is_some());
}

#[test]
fn send_keeps_delivered_payloads_in_order() {
    let mut state = AppState::new();
    let first = Payload::new_joined("ann");
    let second = Payload::new_message("ann", "\"hi\"".to_string());
    assert_eq!(state.send(first.clone(), true), Ok(()));
    assert_eq!(state.send(second.clone(), true), Ok(()));
    assert_eq!(state.get_payload_list(), vec![first, second]);
}

#[test]
fn send_without_receivers_keeps_nothing() {
    let mut state = AppState::new();
    let p = Payload::new_left("ann");
    assert_eq!(state.send(p, false), Err(SendError::NoReceivers));
    assert!(state.get_payload_list().is_empty());
}

#[test]
fn payload_inner_constructors_and_display() {
    assert_eq!(PayloadInner::new_joined("ann"), PayloadInner::Joined(UserInfo("ann".to_string())));
    assert_eq!(PayloadInner::new_left("ann"), PayloadInner::Left(LeaveInfo("ann".to_string())));
    assert_eq!(
        PayloadInner::new_message("ann", "{\"a\":1}".to_string()),
        PayloadInner::Message(MessageInfo { content: "{\"a\":1}".to_string(), sender: "ann".to_string() })
    );
    assert_eq!(PayloadInner::new_joined("ann").display(), "ann joined");
    assert_eq!(PayloadInner::new_left("bob").display(), "bob joined");
    assert_eq!(PayloadInner::new_message("cy", "\"yo\"".to_string()).display(), "cy: \"yo\"");
}

#[test]
fn payloads_get_distinct_identifiers() {
    let a = Payload::new_joined("ann");
    let b = Payload::new_joined("ann");
    assert_ne!(a.meta.id, b.meta.id);
    assert_eq!(a.inner, b.inner);
    assert!(PayloadMeta::new().sent_at.nanos < 2_000_000_000);
    assert_eq!(a.duplicate(), a);
}

#[test]
fn messages_order_by_time_sent() {
    let early = Message {
        content: "1".to_string(),
        sender: "ann".to_string(),
        sent_at: Timestamp { secs: 10, nanos: 5 },
    };
    let late = Message { sent_at: Timestamp { secs: 10, nanos: 6 }, ..early.clone() };
    let later = Message { sent_at: Timestamp { secs: 11, nanos: 0 }, ..early.clone() };
    assert_eq!(early.cmp(&late), Ordering::Less);
    assert_eq!(later.cmp(&late), Ordering::Greater);
    assert_eq!(early.cmp(&early.clone()), Ordering::Equal);
    assert_eq!(late.partial_cmp(&later), Some(Ordering::Less));
}

#[test]
fn message_new_stamps_the_sender() {
    let m = Message::new("\"hello\"".to_string(), "ann");
    assert_eq!(m.sender, "ann");
    assert_eq!(m.content, "\"hello\"");
}

#[test]
fn plain_records_hold_their_fields() {
    let u = api::User { username: "ann".to_string() };
    let m = api::Message { content: "hi".to_string(), sender: u.username.clone() };
    assert_eq!(m.sender, "ann");
    let c = Channel { id: 1, permitted_users: vec![2, 3], messages: vec![] };
    assert_eq!(c.permitted_users.len(), 2);
}

use workbench::chat::client::{join_clicked, send_clicked, PayloadHandler, PayloadList, Session};

#[test]
fn joining_records_the_name_and_sends_it() {
    let mut session = Session::new();
    assert_eq!(session.get_username(), None);
    assert_eq!(join_clicked(&mut session, None), None);
    assert_eq!(session.get_username(), None);
    assert_eq!(join_clicked(&mut session, Some("ann".to_string())), Some("ann".to_string()));
    assert_eq!(session.get_username(), Some("ann".to_string()));
    session.set_username("bob".to_string());
    assert_eq!(session.get_username(), Some("bob".to_string()));
}

#[test]
fn sending_needs_a_name_and_input() {
    let mut session = Session::new();
    assert!(matches!(send_clicked(&session, Some("hi".to_string())), PayloadHandler::Nothing));
    session.set_username("ann".to_string());
    assert!(matches!(send_clicked(&session, None), PayloadHandler::Nothing));
    match send_clicked(&session, Some("say \"hi\"".to_string())) {
        PayloadHandler::AddPayload(p) => {
            assert_eq!(
                p.inner,
                PayloadInner::Message(MessageInfo { content: "\"say \\\"hi\\\"\"".to_string(), sender: "ann".to_string() })
            );
            assert_eq!(p.inner.display(), "ann: \"say \\\"hi\\\"\"");
        }
        PayloadHandler::Nothing => panic!("a joined client with input sends a message"),
    }
}

#[test]
fn the_payload_list_grows_on_added_payloads_only() {
    let mut list = PayloadList::create();
    assert!(!list.update(PayloadHandler::Nothing));
    assert!(list.payloads.is_empty());
    let p = Payload::new_joined("ann");
    assert!(list.update(PayloadHandler::AddPayload(p.clone())));
    assert_eq!(list.payloads, vec![p]);
}

#[test]
fn payload_paragraph_text_shows_time_then_contents() {
    let p = Payload {
        inner: PayloadInner::new_joined("ann"),
        meta: PayloadMeta { id: 1, sent_at: Timestamp { secs: 1431648000, nanos: 0 } },
    };
    assert_eq!(p.to_html(), Some("(2015-05-15 00:00:00)\nann joined".to_string()));
    let late = Payload { meta: PayloadMeta { id: 2, sent_at: Timestamp { secs: i64::MAX, nanos: 0 } }, ..p.clone() };
    assert_eq!(late.to_html(), None);
    let m = Message::new("1".to_string(), "x");
    assert_eq!(m.to_html(), "Messages have no implementation yet");
}

#[test]
fn the_first_message_greets_from_the_system() {
    let mut m = Message::create();
    assert_eq!(m.sender, "SYSTEM");
    assert_eq!(m.content, "\"Hello, world!\"");
    let before = m.clone();
    assert!(!m.update());
    assert_eq!(m, before);
}

#[test]
fn paragraph_puts_the_time_first() {
    assert_eq!(paragraph("2020-01-01 00:00:00", "ann joined"), "(2020-01-01 00:00:00)\nann joined");
}

#[test]
fn message_order_is_total() {
    let at = |secs: i64, nanos: u32| Message { content: "0".to_string(), sender: "s".to_string(), sent_at: Timestamp { secs, nanos } };
    let msgs = [at(1, 0), at(1, 5), at(-3, 7), at(2, 0), at(1, 5)];
    for a in &msgs {
        for b in &msgs {
            assert_eq!(a.cmp(b), b.cmp(a).reverse());
            assert_eq!(a.cmp(b) == Ordering::Equal, a.sent_at == b.sent_at);
            for c in &msgs {
                if a.cmp(b) == Ordering::Less && b.cmp(c) == Ordering::Less {
                    assert_eq!(a.cmp(c), Ordering::Less);
                }
            }
        }
    }
}

#[test]
fn payload_meta_ids_are_random_version_four() {
    let a = PayloadMeta::new();
    let b = PayloadMeta::new();
    let mask: u128 = 0x0000_0000_0000_F000_C000_0000_0000_0000;
    let bits: u128 = 0x0000_0000_0000_4000_8000_0000_0000_0000;
    assert_eq!(a.id & mask, bits);
    assert_eq!(b.id & mask, bits);
    assert_ne!(a.id, b.id);
    assert!(a.sent_at.nanos < 2_000_000_000);
}

#[test]
fn sent_text_is_escaped_as_a_json_string() {
    let mut session = Session::new();
    session.set_username("ann".to_string());
    match send_clicked(&session, Some("a\\b\n\t\r\u{8}\u{c}\u{1}\u{1f}\u{7f}é/".to_string())) {
        PayloadHandler::AddPayload(p) => match p.inner {
            PayloadInner::Message(m) => {
                assert_eq!(m.content, "\"a\\\\b\\n\\t\\r\\b\\f\\u0001\\u001f\u{7f}é/\"");
            }
            _ => panic!("a message is sent"),
        },
        PayloadHandler::Nothing => panic!("a joined client with input sends a message"),
    }
}
