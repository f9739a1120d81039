use chat_client::chat::{Chat, Msg, SessionState};
use chat_client::present::{classify, derive_avatar, MessageKind};
use chat_client::wire::ProtocolDecodeError;

const AVATAR_BASE: &str = "https://avatars.dicebear.com/api/adventurer-neutral/";

fn users_frame(names: &[&str]) -> String {
    let mut items = String::new();
    for (i, n) in names.iter().enumerate() {
        if i > 0 {
            items.push(',');
        }
        items.push('"');
        items.push_str(n);
        items.push('"');
    }
    format!("{{\"messageType\":\"users\",\"dataArray\":[{}],\"data\":null}}", items)
}

fn message_frame(from: &str, body: &str) -> String {
    let payload = format!("{{\\\"from\\\":\\\"{}\\\",\\\"message\\\":\\\"{}\\\"}}", from, body);
    format!("{{\"messageType\":\"message\",\"data\":\"{}\"}}", payload)
}

#[test]
fn create_returns_register_command() {
    let (chat, frame) = Chat::create(String::from("alice"));
    assert_eq!(
        frame,
        "{\"messageType\":\"register\",\"dataArray\":null,\"data\":\"alice\"}"
    );
    assert_eq!(chat.username().as_str(), "alice");
    let v = chat.current_view();
    assert!(v.users.is_empty());
    assert!(v.messages.is_empty());
}

#[test]
fn users_frame_replaces_roster_with_derived_avatars() {
    let (mut chat, _) = Chat::create(String::from("me"));
    let r = chat.handle_frame(&users_frame(&["a", "b"]));
    assert_eq!(r, Ok(true));
    let v = chat.current_view();
    assert_eq!(v.users.len(), 2);
    assert_eq!(v.users[0].name, "a");
    assert_eq!(v.users[0].avatar, format!("{}a.svg", AVATAR_BASE));
    assert_eq!(v.users[1].name, "b");
    assert_eq!(v.users[1].avatar, format!("{}b.svg", AVATAR_BASE));
}

#[test]
fn message_frame_appends_to_transcript() {
    let (mut chat, _) = Chat::create(String::from("me"));
    chat.handle_frame(&users_frame(&["a"])).unwrap();
    let r = chat.handle_frame(&message_frame("a", "hi"));
    assert_eq!(r, Ok(true));
    let v = chat.current_view();
    assert_eq!(v.messages.len(), 1);
    assert_eq!(v.messages[0].from, "a");
    assert_eq!(v.messages[0].body, "hi");
    assert_eq!(v.messages[0].avatar, format!("{}a.svg", AVATAR_BASE));
    assert_eq!(v.messages[0].kind, MessageKind::Text);
}

#[test]
fn ordering_roster_change_keeps_transcript() {
    let (mut chat, _) = Chat::create(String::from("me"));
    assert_eq!(chat.handle_frame(&users_frame(&["a", "b"])), Ok(true));
    assert_eq!(chat.handle_frame(&message_frame("a", "hi")), Ok(true));
    assert_eq!(chat.handle_frame(&users_frame(&["b"])), Ok(true));
    let v = chat.current_view();
    assert_eq!(v.users.len(), 1);
    assert_eq!(v.users[0].name, "b");
    assert_eq!(v.messages.len(), 1);
    assert_eq!(v.messages[0].from, "a");
    assert_eq!(v.messages[0].body, "hi");
}

#[test]
fn bad_nested_payload_reports_and_leaves_store_unchanged() {
    let (mut chat, _) = Chat::create(String::from("me"));
    chat.handle_frame(&users_frame(&["a"])).unwrap();
    let r = chat.handle_frame("{\"messageType\":\"message\",\"data\":\"not json\"}");
    assert_eq!(r, Err(ProtocolDecodeError::MalformedPayload));
    let v = chat.current_view();
    assert_eq!(v.users.len(), 1);
    assert!(v.messages.is_empty());
}

#[test]
fn bad_frame_reports_and_leaves_store_unchanged() {
    let (mut chat, _) = Chat::create(String::from("me"));
    chat.handle_frame(&users_frame(&["a"])).unwrap();
    let r = chat.handle_frame("garbage");
    assert_eq!(r, Err(ProtocolDecodeError::MalformedFrame));
    let v = chat.current_view();
    assert_eq!(v.users.len(), 1);
    assert!(v.messages.is_empty());
}

#[test]
fn inbound_register_is_ignored() {
    let (mut chat, _) = Chat::create(String::from("me"));
    chat.handle_frame(&users_frame(&["a"])).unwrap();
    let r = chat.handle_frame("{\"messageType\":\"register\",\"data\":\"x\"}");
    assert_eq!(r, Ok(false));
    let v = chat.current_view();
    assert_eq!(v.users.len(), 1);
    assert!(v.messages.is_empty());
}

#[test]
fn users_frame_with_data_string_empties_roster() {
    let (mut chat, _) = Chat::create(String::from("me"));
    chat.handle_frame(&users_frame(&["a"])).unwrap();
    let r = chat.handle_frame("{\"messageType\":\"users\",\"data\":\"whatever\"}");
    assert_eq!(r, Ok(true));
    assert!(chat.current_view().users.is_empty());
}

#[test]
fn empty_submission_sends_nothing_and_mutates_nothing() {
    let (mut chat, _) = Chat::create(String::from("me"));
    chat.handle_frame(&users_frame(&["a"])).unwrap();
    let step = chat.update(Msg::SubmitMessage(String::new()));
    assert!(!step.render);
    assert!(step.outbound.is_none());
    assert!(step.error.is_none());
    let v = chat.current_view();
    assert_eq!(v.users.len(), 1);
    assert!(v.messages.is_empty());
}

#[test]
fn submission_encodes_the_send_command() {
    let (chat, _) = Chat::create(String::from("me"));
    let out = chat.submit_message("hello");
    assert_eq!(
        out,
        Some(String::from(
            "{\"messageType\":\"message\",\"dataArray\":null,\"data\":\"hello\"}"
        ))
    );
}

#[test]
fn update_dispatches_inbound_frames() {
    let (mut chat, _) = Chat::create(String::from("me"));
    let step = chat.update(Msg::HandleMsg(users_frame(&["a"])));
    assert!(step.render);
    assert!(step.outbound.is_none());
    assert!(step.error.is_none());
    let step = chat.update(Msg::HandleMsg(String::from("nope")));
    assert!(!step.render);
    assert_eq!(step.error, Some(ProtocolDecodeError::MalformedFrame));
}

#[test]
fn snapshot_is_idempotent() {
    let (mut chat, _) = Chat::create(String::from("me"));
    chat.handle_frame(&users_frame(&["a", "b"])).unwrap();
    chat.handle_frame(&message_frame("a", "pic.gif")).unwrap();
    let v1 = chat.current_view();
    let v2 = chat.current_view();
    assert_eq!(v1.users.len(), v2.users.len());
    for (u1, u2) in v1.users.iter().zip(v2.users.iter()) {
        assert_eq!(u1.name, u2.name);
        assert_eq!(u1.avatar, u2.avatar);
    }
    assert_eq!(v1.messages.len(), v2.messages.len());
    for (m1, m2) in v1.messages.iter().zip(v2.messages.iter()) {
        assert_eq!(m1.from, m2.from);
        assert_eq!(m1.body, m2.body);
        assert_eq!(m1.avatar, m2.avatar);
        assert_eq!(m1.kind, m2.kind);
    }
}

#[test]
fn unknown_author_gets_placeholder_avatar() {
    let (mut chat, _) = Chat::create(String::from("me"));
    chat.handle_frame(&message_frame("ghost", "boo")).unwrap();
    let v = chat.current_view();
    assert_eq!(v.messages[0].avatar, format!("{}unknown.svg", AVATAR_BASE));
}

#[test]
fn gif_bodies_render_as_attachments() {
    let (mut chat, _) = Chat::create(String::from("me"));
    chat.handle_frame(&users_frame(&["a"])).unwrap();
    chat.handle_frame(&message_frame("a", "cat.gif")).unwrap();
    chat.handle_frame(&message_frame("a", "CAT.GIF")).unwrap();
    let v = chat.current_view();
    assert_eq!(v.messages[0].kind, MessageKind::Attachment);
    assert_eq!(v.messages[1].kind, MessageKind::Text);
}

#[test]
fn classify_is_exact_on_the_gif_suffix() {
    assert_eq!(classify("x.gif"), MessageKind::Attachment);
    assert_eq!(classify(".gif"), MessageKind::Attachment);
    assert_eq!(classify("X.GIF"), MessageKind::Text);
    assert_eq!(classify("gif"), MessageKind::Text);
    assert_eq!(classify(""), MessageKind::Text);
    assert_eq!(classify("gif."), MessageKind::Text);
}

#[test]
fn avatar_urls_embed_the_username() {
    assert_eq!(derive_avatar("alice"), format!("{}alice.svg", AVATAR_BASE));
}

#[test]
fn avatar_urls_percent_encode_unsafe_names() {
    assert_eq!(derive_avatar("a b"), format!("{}a%20b.svg", AVATAR_BASE));
    assert_eq!(derive_avatar("k\u{00e9}"), format!("{}k%C3%A9.svg", AVATAR_BASE));
    assert_eq!(derive_avatar("a/b"), format!("{}a%2Fb.svg", AVATAR_BASE));
}

#[test]
fn session_becomes_active_once_register_is_dispatched() {
    let (mut chat, _frame) = Chat::create(String::from("me"));
    assert_eq!(chat.session_state(), SessionState::Connecting);
    chat.register_dispatched();
    assert_eq!(chat.session_state(), SessionState::Active);
    chat.handle_frame(&users_frame(&["a"])).unwrap();
    assert_eq!(chat.session_state(), SessionState::Active);
}
